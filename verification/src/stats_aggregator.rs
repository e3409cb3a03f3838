//! Sliding windows over the traffic of the last seconds, and the speeds
//! averaged over them.

use vstd::prelude::*;
use crate::averages::{
    amounts, average_over, averages, lemma_empty_second, lemma_nat_total_push,
    lemma_rate_total_prefix, lemma_rate_total_within, lemma_window_rate_within, nat_total,
    rate_total, total_fits, views, window_rate,
};
use crate::connections::{connection_lines, connection_list, in_order, orders};
use crate::net::Ipv4;
use crate::speed::{Rate, Speed, speed_text};
use crate::sums::{bit_sum, rate_sum};
use crate::tally::{
    DirectionBits, DirectionTotals, Second, SpeedMap, StatsMap, direction_sums, host_rates,
    load_of, pair_rates,
};
use crate::traffic::{IpPair, StatKey};
use crate::window::{
    Window, slide, window_capacity, window_is_empty, window_items, window_len, window_new,
    window_push, window_slices,
};

verus! {

/// The number of seconds that the windows hold unless told otherwise.
pub const DEFAULT_WINDOW: usize = 10;

/// What the statistics hold: five windows in lockstep, one entry per
/// second, oldest first.
pub struct Windows {
    /// The number of seconds that each window holds at most.
    pub capacity: nat,
    /// Bits by direction.
    pub directions: Seq<DirectionBits>,
    /// The traffic as it was handed in.
    pub raw: Seq<Map<StatKey, nat>>,
    /// Speed by endpoint pair.
    pub pairs: Seq<Map<IpPair, Rate>>,
    /// Speed by host.
    pub hosts: Seq<Map<Ipv4, Rate>>,
    /// Speed of all hosts together.
    pub totals: Seq<Rate>,
}

impl Windows {
    /// Windows of the given capacity before the first second.
    pub open spec fn fresh(capacity: nat) -> Windows {
        Windows {
            capacity,
            directions: Seq::empty(),
            raw: Seq::empty(),
            pairs: Seq::empty(),
            hosts: Seq::empty(),
            totals: Seq::empty(),
        }
    }

    /// The windows after one more second with traffic `m`: every window
    /// takes its entry for that second, and gives up its oldest entry if
    /// it was full.
    pub open spec fn ticked(self, m: Map<StatKey, nat>) -> Windows {
        Windows {
            capacity: self.capacity,
            directions: slide(self.directions, direction_sums(m), self.capacity),
            raw: slide(self.raw, m, self.capacity),
            pairs: slide(self.pairs, pair_rates(m), self.capacity),
            hosts: slide(self.hosts, host_rates(pair_rates(m)), self.capacity),
            totals: slide(self.totals, rate_sum(host_rates(pair_rates(m))), self.capacity),
        }
    }

    /// The windows after the seconds `ticks`, oldest first, starting fresh.
    pub open spec fn after(capacity: nat, ticks: Seq<Map<StatKey, nat>>) -> Windows
        decreases ticks.len(),
    {
        if ticks.len() == 0 {
            Windows::fresh(capacity)
        } else {
            Windows::after(capacity, ticks.drop_last()).ticked(ticks.last())
        }
    }

    /// The windows are in lockstep: all are equally long, none longer than
    /// the capacity, and at each index every derived entry follows from
    /// the traffic at that index.
    pub open spec fn consistent(self) -> bool {
        &&& self.capacity > 0
        &&& self.raw.len() <= self.capacity
        &&& self.directions.len() == self.raw.len()
        &&& self.pairs.len() == self.raw.len()
        &&& self.hosts.len() == self.raw.len()
        &&& self.totals.len() == self.raw.len()
        &&& forall|i: int|
            0 <= i < self.raw.len() ==> (#[trigger] self.directions[i]) == direction_sums(
                self.raw[i],
            )
        &&& forall|i: int|
            0 <= i < self.raw.len() ==> (#[trigger] self.pairs[i]) == pair_rates(self.raw[i])
        &&& forall|i: int|
            0 <= i < self.raw.len() ==> (#[trigger] self.hosts[i]) == host_rates(self.pairs[i])
        &&& forall|i: int|
            0 <= i < self.raw.len() ==> (#[trigger] self.totals[i]) == rate_sum(self.hosts[i])
    }
}

/// The last `n` entries of `s`, or all of `s` if it has fewer.
pub open spec fn latest<T>(s: Seq<T>, n: nat) -> Seq<T> {
    if s.len() <= n {
        s
    } else {
        s.skip(s.len() - n)
    }
}

/// One more second keeps the windows in lockstep.
pub proof fn lemma_ticked_consistent(w: Windows, m: Map<StatKey, nat>)
    requires
        w.consistent(),
    ensures
        w.ticked(m).consistent(),
        w.ticked(m).raw.len() == if w.raw.len() < w.capacity {
            w.raw.len() + 1
        } else {
            w.capacity
        },
{
    let t = w.ticked(m);
    let shift: int = if w.raw.len() < w.capacity {
        0
    } else {
        1
    };
    assert forall|i: int| 0 <= i < t.raw.len() implies (#[trigger] t.directions[i])
        == direction_sums(t.raw[i]) by {
        if i < t.raw.len() - 1 {
            assert(t.directions[i] == w.directions[i + shift]);
        }
    }
    assert forall|i: int| 0 <= i < t.raw.len() implies (#[trigger] t.pairs[i]) == pair_rates(
        t.raw[i],
    ) by {
        if i < t.raw.len() - 1 {
            assert(t.pairs[i] == w.pairs[i + shift]);
        }
    }
    assert forall|i: int| 0 <= i < t.raw.len() implies (#[trigger] t.hosts[i]) == host_rates(
        t.pairs[i],
    ) by {
        if i < t.raw.len() - 1 {
            assert(t.hosts[i] == w.hosts[i + shift]);
        }
    }
    assert forall|i: int| 0 <= i < t.raw.len() implies (#[trigger] t.totals[i]) == rate_sum(
        t.hosts[i],
    ) by {
        if i < t.raw.len() - 1 {
            assert(t.totals[i] == w.totals[i + shift]);
        }
    }
}

/// After any number of seconds every window holds the entries of the
/// latest seconds, as many as there were but no more than the capacity: so
/// the five windows are equally long, with one second more than the
/// capacity the oldest second has left each of them, and at each index the
/// pair speeds follow from the traffic, the host speeds from the pair
/// speeds, and the total is the sum of the host speeds.
pub proof fn lemma_windows_after(capacity: nat, ticks: Seq<Map<StatKey, nat>>)
    requires
        capacity > 0,
    ensures
        Windows::after(capacity, ticks).consistent(),
        Windows::after(capacity, ticks).capacity == capacity,
        Windows::after(capacity, ticks).raw == latest(ticks, capacity),
        Windows::after(capacity, ticks).directions == latest(ticks, capacity).map_values(
            |m: Map<StatKey, nat>| direction_sums(m),
        ),
        Windows::after(capacity, ticks).pairs == latest(ticks, capacity).map_values(
            |m: Map<StatKey, nat>| pair_rates(m),
        ),
        Windows::after(capacity, ticks).hosts == latest(ticks, capacity).map_values(
            |m: Map<StatKey, nat>| host_rates(pair_rates(m)),
        ),
        Windows::after(capacity, ticks).totals == latest(ticks, capacity).map_values(
            |m: Map<StatKey, nat>| rate_sum(host_rates(pair_rates(m))),
        ),
        Windows::after(capacity, ticks).raw.len() == if ticks.len() <= capacity {
            ticks.len()
        } else {
            capacity
        },
    decreases ticks.len(),
{
    let w = Windows::after(capacity, ticks);
    if ticks.len() > 0 {
        let before = Windows::after(capacity, ticks.drop_last());
        lemma_windows_after(capacity, ticks.drop_last());
        lemma_ticked_consistent(before, ticks.last());
    }
    assert(w.raw =~= latest(ticks, capacity));
    assert(w.directions =~= latest(ticks, capacity).map_values(
        |m: Map<StatKey, nat>| direction_sums(m),
    ));
    assert(w.pairs =~= latest(ticks, capacity).map_values(|m: Map<StatKey, nat>| pair_rates(m)));
    assert(w.hosts =~= latest(ticks, capacity).map_values(
        |m: Map<StatKey, nat>| host_rates(pair_rates(m)),
    ));
    assert(w.totals =~= latest(ticks, capacity).map_values(
        |m: Map<StatKey, nat>| rate_sum(host_rates(pair_rates(m))),
    ));
}

/// All bits of all seconds of a window of traffic.
pub open spec fn bits_total(raw: Seq<Map<StatKey, nat>>) -> nat {
    nat_total(raw.map_values(|m: Map<StatKey, nat>| bit_sum(m)))
}

/// A window as one more second finds it: without its oldest entry if it
/// is full.
pub open spec fn aged<T>(s: Seq<T>, capacity: nat) -> Seq<T> {
    if s.len() < capacity {
        s
    } else {
        s.drop_first()
    }
}

/// A second without traffic adds an empty entry to every window and
/// leaves everything computed from the seconds that stay as it is: the
/// average of every host and of every pair, the lines of the connections,
/// the sum of the totals, and the bits of the window. Only what the entry
/// held that leaves a full window is lost.
pub proof fn lemma_silent_tick(w: Windows)
    requires
        w.consistent(),
    ensures
        w.ticked(Map::empty()).raw.last() == Map::<StatKey, nat>::empty(),
        w.ticked(Map::empty()).pairs.last() == Map::<IpPair, Rate>::empty(),
        w.ticked(Map::empty()).hosts.last() == Map::<Ipv4, Rate>::empty(),
        w.ticked(Map::empty()).totals.last() == Rate::zero(),
        averages(w.ticked(Map::empty()).hosts) == averages(aged(w.hosts, w.capacity)),
        averages(w.ticked(Map::empty()).pairs) == averages(aged(w.pairs, w.capacity)),
        connection_lines(averages(w.ticked(Map::empty()).pairs)) == connection_lines(
            averages(aged(w.pairs, w.capacity)),
        ),
        rate_total(w.ticked(Map::empty()).totals) == rate_total(aged(w.totals, w.capacity)),
        bits_total(w.ticked(Map::empty()).raw) == bits_total(aged(w.raw, w.capacity)),
{
    crate::tally::lemma_silent_second();
    let hosts = aged(w.hosts, w.capacity);
    let pairs = aged(w.pairs, w.capacity);
    let totals = aged(w.totals, w.capacity);
    let raw = aged(w.raw, w.capacity);
    lemma_empty_second(hosts);
    lemma_empty_second(pairs);
    assert(totals.push(Rate::zero()).drop_last() =~= totals);
    let bits = raw.map_values(|m: Map<StatKey, nat>| bit_sum(m));
    crate::sums::lemma_bit_sum_empty::<StatKey>();
    assert(raw.push(Map::empty()).map_values(|m: Map<StatKey, nat>| bit_sum(m)) =~= bits.push(
        0nat,
    ));
    lemma_nat_total_push(bits, 0);
}

/// A second without traffic that comes to a window with room left changes
/// no computed speed but the average of the totals, which is taken over
/// one second more: the averages of hosts and pairs, the lines of the
/// connections and the sum of the totals stay, and the bits of the window
/// fit 128 bits as before.
pub proof fn lemma_silent_tick_with_room(w: Windows)
    requires
        w.consistent(),
        w.raw.len() < w.capacity,
    ensures
        w.ticked(Map::empty()).raw.len() == w.raw.len() + 1,
        averages(w.ticked(Map::empty()).hosts) == averages(w.hosts),
        averages(w.ticked(Map::empty()).pairs) == averages(w.pairs),
        connection_lines(averages(w.ticked(Map::empty()).pairs)) == connection_lines(
            averages(w.pairs),
        ),
        rate_total(w.ticked(Map::empty()).totals) == rate_total(w.totals),
        bits_total(w.ticked(Map::empty()).raw) == bits_total(w.raw),
{
    lemma_silent_tick(w);
}

/// Sliding-window traffic statistics.
pub struct StatsAggregator {
    window: Window,
}

impl View for StatsAggregator {
    type V = Windows;

    closed spec fn view(&self) -> Windows {
        let items = window_items(self.window);
        Windows {
            capacity: window_capacity(self.window),
            directions: items.map_values(|s: Second| s.directions()),
            raw: items.map_values(|s: Second| s.raw()),
            pairs: items.map_values(|s: Second| s.pairs()),
            hosts: items.map_values(|s: Second| s.hosts()),
            totals: items.map_values(|s: Second| s.total()),
        }
    }
}

impl Default for StatsAggregator {
    /// Statistics over the last ten seconds.
    fn default() -> (a: Self)
        ensures
            a.wf(),
            a@ == Windows::fresh(DEFAULT_WINDOW as nat),
    {
        Self::new()
    }
}

/// The entry at `i` of what two slices hold one after the other.
fn entry_at<'a>(left: &'a [Second], right: &'a [Second], i: usize) -> (s: &'a Second)
    requires
        i < left@.len() + right@.len(),
    ensures
        *s == (left@ + right@)[i as int],
{
    if i < left.len() {
        &left[i]
    } else {
        &right[i - left.len()]
    }
}

impl StatsAggregator {
    /// The window is within its capacity and every second in it is sound.
    pub closed spec fn wf(&self) -> bool {
        let items = window_items(self.window);
        &&& window_capacity(self.window) > 0
        &&& items.len() <= window_capacity(self.window)
        &&& forall|i: int| 0 <= i < items.len() ==> (#[trigger] items[i]).wf() && items[i].derived()
    }

    /// The windows of a well-formed aggregator are in lockstep.
    pub proof fn lemma_consistent(&self)
        requires
            self.wf(),
        ensures
            self@.consistent(),
    {
        let items = window_items(self.window);
        assert forall|i: int| 0 <= i < self@.raw.len() implies (#[trigger] self@.directions[i])
            == direction_sums(self@.raw[i]) by {
            assert(items[i].derived());
        }
        assert forall|i: int| 0 <= i < self@.raw.len() implies (#[trigger] self@.pairs[i])
            == pair_rates(self@.raw[i]) by {
            assert(items[i].derived());
        }
        assert forall|i: int| 0 <= i < self@.raw.len() implies (#[trigger] self@.hosts[i])
            == host_rates(self@.pairs[i]) by {
            assert(items[i].derived());
        }
        assert forall|i: int| 0 <= i < self@.raw.len() implies (#[trigger] self@.totals[i])
            == rate_sum(self@.hosts[i]) by {
            assert(items[i].derived());
        }
    }

    /// Statistics over the last ten seconds.
    pub fn new() -> (a: Self)
        ensures
            a.wf(),
            a@ == Windows::fresh(DEFAULT_WINDOW as nat),
    {
        Self::new_with_window_size(DEFAULT_WINDOW)
    }

    /// Statistics over the last `window` seconds.
    pub fn new_with_window_size(window: usize) -> (a: Self)
        requires
            window > 0,
        ensures
            a.wf(),
            a@ == Windows::fresh(window as nat),
    {
        let a = StatsAggregator { window: window_new(window) };
        proof {
            assert(a@.directions =~= Seq::empty());
            assert(a@.raw =~= Seq::empty());
            assert(a@.pairs =~= Seq::empty());
            assert(a@.hosts =~= Seq::empty());
            assert(a@.totals =~= Seq::empty());
        }
        a
    }

    /// Takes the traffic of one more second into every window.
    pub fn tick(&mut self, hash_map: StatsMap)
        requires
            old(self).wf(),
            hash_map.wf(),
        ensures
            final(self).wf(),
            final(self)@ == old(self)@.ticked(hash_map@),
    {
        let second = Second::of(hash_map);
        let ghost before = window_items(self.window);
        let ghost capacity = window_capacity(self.window);
        window_push(&mut self.window, second);
        proof {
            let now = window_items(self.window);
            assert(now == slide(before, second, capacity));
            assert forall|i: int| 0 <= i < now.len() implies (#[trigger] now[i]).wf()
                && now[i].derived() by {
                if before.len() < capacity {
                    if i < before.len() {
                        assert(now[i] == before[i]);
                    }
                } else {
                    if i < now.len() - 1 {
                        assert(now[i] == before[i + 1]);
                    }
                }
            }
            let v = self@;
            let t = old(self)@.ticked(hash_map@);
            assert(v.directions =~= t.directions);
            assert(v.raw =~= t.raw);
            assert(v.pairs =~= t.pairs);
            assert(v.hosts =~= t.hosts);
            assert(v.totals =~= t.totals);
        }
    }

    /// The number of seconds in the windows.
    pub fn len(&self) -> (n: usize)
        requires
            self.wf(),
        ensures
            n == self@.raw.len(),
    {
        window_len(&self.window)
    }

    /// The speed of all hosts together, averaged over the seconds in the
    /// window, as text; the empty string while the window is empty.
    pub fn speed_str(&self) -> (s: String)
        requires
            self.wf(),
            rate_total(self@.totals).fits(),
        ensures
            s@ == if self@.totals.len() == 0 {
                Seq::<char>::empty()
            } else {
                speed_text(rate_total(self@.totals).over(self@.totals.len()))
            },
    {
        if window_is_empty(&self.window) {
            return String::new();
        }
        let (left, right) = window_slices(&self.window);
        let n = window_len(&self.window);
        let mut sum = Speed { input: 0, output: 0 };
        let mut i: usize = 0;
        let ghost totals = self@.totals;
        proof {
            assert(totals.take(0) =~= Seq::<Rate>::empty());
        }
        while i < n
            invariant
                i <= n,
                n == totals.len(),
                totals == self@.totals,
                left@ + right@ == window_items(self.window),
                rate_total(totals).fits(),
                sum@ == rate_total(totals.take(i as int)),
            decreases n - i,
        {
            let second = entry_at(left, right, i);
            let t = second.total_speed();
            proof {
                assert(totals.take(i + 1).drop_last() =~= totals.take(i as int));
                assert(totals.take(i + 1).last() == t@);
                lemma_rate_total_prefix(totals, i + 1);
            }
            sum = sum + t;
            i = i + 1;
        }
        proof {
            assert(totals.take(n as int) =~= totals);
        }
        let avg = sum / (n as u128);
        avg.to_string()
    }

    /// Whether all bits of the window together fit 128 bits, so that every
    /// sum that an average is formed from fits as well.
    pub fn fits(&self) -> (b: bool)
        requires
            self.wf(),
        ensures
            b == (bits_total(self@.raw) <= u128::MAX),
    {
        let (left, right) = window_slices(&self.window);
        let n = window_len(&self.window);
        let mut bits: Vec<u128> = Vec::new();
        let mut i: usize = 0;
        while i < n
            invariant
                i <= n,
                self.wf(),
                n == window_items(self.window).len(),
                left@ + right@ == window_items(self.window),
                bits@.len() == i,
                forall|j: int|
                    0 <= j < i ==> (#[trigger] bits@[j]) == bit_sum(
                        window_items(self.window)[j].raw(),
                    ),
            decreases n - i,
        {
            let second = entry_at(left, right, i);
            assert(window_items(self.window)[i as int].wf());
            bits.push(second.traffic().total_bits());
            i = i + 1;
        }
        proof {
            assert(amounts(bits@) =~= self@.raw.map_values(|m: Map<StatKey, nat>| bit_sum(m)));
        }
        total_fits(&bits)
    }

    /// Where all bits of the window fit 128 bits, so does every sum that
    /// the averages are formed from.
    pub proof fn lemma_fits(&self)
        requires
            self.wf(),
            bits_total(self@.raw) <= u128::MAX,
        ensures
            rate_total(self@.totals).fits(),
            forall|h: Ipv4| (#[trigger] window_rate(self@.hosts, h)).fits(),
            forall|p: IpPair| (#[trigger] window_rate(self@.pairs, p)).fits(),
    {
        let items = window_items(self.window);
        let bits = self@.raw.map_values(|m: Map<StatKey, nat>| bit_sum(m));
        assert forall|i: int| 0 <= i < items.len() implies {
            &&& (#[trigger] self@.totals[i]).input + self@.totals[i].output <= bits[i]
            &&& (#[trigger] self@.hosts[i]).dom().finite()
            &&& load_of(self@.hosts[i]) <= bits[i]
            &&& (#[trigger] self@.pairs[i]).dom().finite()
            &&& load_of(self@.pairs[i]) <= bits[i]
        } by {
            assert(items[i].derived());
        }
        lemma_rate_total_within(self@.totals, bits);
        assert forall|h: Ipv4| (#[trigger] window_rate(self@.hosts, h)).fits() by {
            lemma_window_rate_within(self@.hosts, bits, h);
        }
        assert forall|p: IpPair| (#[trigger] window_rate(self@.pairs, p)).fits() by {
            lemma_window_rate_within(self@.pairs, bits, p);
        }
    }

    /// The host maps of the window, oldest first.
    fn host_maps(&self) -> (maps: Vec<&SpeedMap<Ipv4>>)
        requires
            self.wf(),
        ensures
            views(maps@) == self@.hosts,
            forall|i: int| 0 <= i < maps@.len() ==> (#[trigger] maps@[i]).wf(),
    {
        let (left, right) = window_slices(&self.window);
        let n = window_len(&self.window);
        let mut maps: Vec<&SpeedMap<Ipv4>> = Vec::new();
        let mut i: usize = 0;
        while i < n
            invariant
                i <= n,
                self.wf(),
                n == window_items(self.window).len(),
                left@ + right@ == window_items(self.window),
                maps@.len() == i,
                forall|j: int|
                    0 <= j < i ==> (#[trigger] maps@[j]).wf() && maps@[j]@ == window_items(
                        self.window,
                    )[j].hosts(),
            decreases n - i,
        {
            let second = entry_at(left, right, i);
            assert(window_items(self.window)[i as int].wf());
            maps.push(second.host_map());
            i = i + 1;
        }
        proof {
            assert(views(maps@) =~= self@.hosts);
        }
        maps
    }

    /// The pair maps of the window, oldest first.
    fn pair_maps(&self) -> (maps: Vec<&SpeedMap<IpPair>>)
        requires
            self.wf(),
        ensures
            views(maps@) == self@.pairs,
            forall|i: int| 0 <= i < maps@.len() ==> (#[trigger] maps@[i]).wf(),
    {
        let (left, right) = window_slices(&self.window);
        let n = window_len(&self.window);
        let mut maps: Vec<&SpeedMap<IpPair>> = Vec::new();
        let mut i: usize = 0;
        while i < n
            invariant
                i <= n,
                self.wf(),
                n == window_items(self.window).len(),
                left@ + right@ == window_items(self.window),
                maps@.len() == i,
                forall|j: int|
                    0 <= j < i ==> (#[trigger] maps@[j]).wf() && maps@[j]@ == window_items(
                        self.window,
                    )[j].pairs(),
            decreases n - i,
        {
            let second = entry_at(left, right, i);
            assert(window_items(self.window)[i as int].wf());
            maps.push(second.pair_map());
            i = i + 1;
        }
        proof {
            assert(views(maps@) =~= self@.pairs);
        }
        maps
    }

    /// The speed of each host that occurs in the window: the sum of its
    /// speeds divided by the number of seconds in which it occurs.
    pub fn speed_per_host(&self) -> (speeds: SpeedMap<Ipv4>)
        requires
            self.wf(),
            forall|h: Ipv4| (#[trigger] window_rate(self@.hosts, h)).fits(),
        ensures
            speeds.wf(),
            speeds@ == averages(self@.hosts),
            averages(self@.hosts).dom().finite(),
    {
        let maps = self.host_maps();
        let speeds = average_over(&maps);
        proof {
            speeds.lemma_bounded();
        }
        speeds
    }

    /// One line for each endpoint pair that occurs in the window, in
    /// ascending order of the pairs, with the pair's speed averaged over
    /// the seconds in which it occurs.
    pub fn connections_strs(&self) -> (lines: Vec<String>)
        requires
            self.wf(),
            forall|p: IpPair| (#[trigger] window_rate(self@.pairs, p)).fits(),
        ensures
            lines@.map_values(|l: String| l@) == connection_lines(averages(self@.pairs)),
            averages(self@.pairs).dom().finite(),
            lines@.len() == averages(self@.pairs).dom().len(),
            orders(in_order(averages(self@.pairs).dom()), averages(self@.pairs).dom()),
    {
        let maps = self.pair_maps();
        let avg = average_over(&maps);
        proof {
            avg.lemma_bounded();
        }
        connection_list(&avg)
    }

    /// The traffic of the second at index `i` of the window, the oldest
    /// second having index zero.
    pub fn raw_at(&self, i: usize) -> (m: &StatsMap)
        requires
            self.wf(),
            i < self@.raw.len(),
        ensures
            m.wf(),
            m@ == self@.raw[i as int],
    {
        let (left, right) = window_slices(&self.window);
        let second = entry_at(left, right, i);
        assert(window_items(self.window)[i as int].wf());
        second.traffic()
    }

    /// The pair speeds of the second at index `i` of the window.
    pub fn pairs_at(&self, i: usize) -> (m: &SpeedMap<IpPair>)
        requires
            self.wf(),
            i < self@.raw.len(),
        ensures
            m.wf(),
            m@ == self@.pairs[i as int],
    {
        let (left, right) = window_slices(&self.window);
        let second = entry_at(left, right, i);
        assert(window_items(self.window)[i as int].wf());
        second.pair_map()
    }

    /// The host speeds of the second at index `i` of the window.
    pub fn hosts_at(&self, i: usize) -> (m: &SpeedMap<Ipv4>)
        requires
            self.wf(),
            i < self@.raw.len(),
        ensures
            m.wf(),
            m@ == self@.hosts[i as int],
    {
        let (left, right) = window_slices(&self.window);
        let second = entry_at(left, right, i);
        assert(window_items(self.window)[i as int].wf());
        second.host_map()
    }

    /// The total speed of the second at index `i` of the window.
    pub fn total_at(&self, i: usize) -> (s: Speed)
        requires
            self.wf(),
            i < self@.raw.len(),
        ensures
            s@ == self@.totals[i as int],
    {
        let (left, right) = window_slices(&self.window);
        let second = entry_at(left, right, i);
        second.total_speed()
    }

    /// The bits by direction of the second at index `i` of the window.
    pub fn directions_at(&self, i: usize) -> (t: DirectionTotals)
        requires
            self.wf(),
            i < self@.raw.len(),
        ensures
            t@ == self@.directions[i as int],
    {
        let (left, right) = window_slices(&self.window);
        let second = entry_at(left, right, i);
        second.direction_totals()
    }
}

} // verus!
