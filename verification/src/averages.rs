//! Averages over a window of speed maps: each key's entries are summed
//! over the seconds in which it occurs and divided by their number.

use vstd::prelude::*;
use crate::maps::{
    Coded, CodedMap, lemma_listed_all, lemma_listed_next, lemma_listed_none, listed, lists_keys,
};
use crate::speed::{Rate, Speed};
use crate::tally::{SpeedMap, lemma_entry_within_load, load_of};

verus! {

/// In how many seconds of the window `k` has an entry.
pub open spec fn occurrences<K>(w: Seq<Map<K, Rate>>, k: K) -> nat
    decreases w.len(),
{
    if w.len() == 0 {
        0
    } else {
        occurrences(w.drop_last(), k) + if w.last().contains_key(k) {
            1nat
        } else {
            0nat
        }
    }
}

/// The sum of the entries of `k` over the seconds of the window that have one.
pub open spec fn window_rate<K>(w: Seq<Map<K, Rate>>, k: K) -> Rate
    decreases w.len(),
{
    if w.len() == 0 {
        Rate::zero()
    } else if w.last().contains_key(k) {
        window_rate(w.drop_last(), k).plus(w.last()[k])
    } else {
        window_rate(w.drop_last(), k)
    }
}

/// For each key with an entry somewhere in the window, the sum of its
/// entries divided by the number of seconds in which it has one.
pub open spec fn averages<K>(w: Seq<Map<K, Rate>>) -> Map<K, Rate> {
    Map::new(
        |k: K| occurrences(w, k) > 0,
        |k: K| window_rate(w, k).over(occurrences(w, k)),
    )
}

/// The sum of a sequence of rates.
pub open spec fn rate_total(s: Seq<Rate>) -> Rate
    decreases s.len(),
{
    if s.len() == 0 {
        Rate::zero()
    } else {
        rate_total(s.drop_last()).plus(s.last())
    }
}

/// The sum of the first seconds of a window is within the sum of all.
pub proof fn lemma_rate_total_prefix(s: Seq<Rate>, n: int)
    requires
        0 <= n <= s.len(),
    ensures
        rate_total(s.take(n)).input <= rate_total(s).input,
        rate_total(s.take(n)).output <= rate_total(s).output,
    decreases s.len() - n,
{
    if n == s.len() {
        assert(s.take(n) =~= s);
    } else {
        lemma_rate_total_prefix(s, n + 1);
        assert(s.take(n + 1).drop_last() =~= s.take(n));
    }
}


/// The sum over the first seconds of a window is within the sum over all.
pub proof fn lemma_window_rate_prefix<K>(w: Seq<Map<K, Rate>>, k: K, n: int)
    requires
        0 <= n <= w.len(),
    ensures
        window_rate(w.take(n), k).input <= window_rate(w, k).input,
        window_rate(w.take(n), k).output <= window_rate(w, k).output,
        occurrences(w.take(n), k) <= occurrences(w, k),
        occurrences(w.take(n), k) <= n,
    decreases w.len() - n,
{
    if n == w.len() {
        assert(w.take(n) =~= w);
        lemma_occurrences_bound(w, k);
    } else {
        lemma_window_rate_prefix(w, k, n + 1);
        assert(w.take(n + 1).drop_last() =~= w.take(n));
        lemma_occurrences_bound(w.take(n), k);
    }
}

/// A key occurs in no more seconds than the window has.
pub proof fn lemma_occurrences_bound<K>(w: Seq<Map<K, Rate>>, k: K)
    ensures
        occurrences(w, k) <= w.len(),
    decreases w.len(),
{
    if w.len() > 0 {
        lemma_occurrences_bound(w.drop_last(), k);
    }
}

/// A key that occurs in no second of the window has the sum zero.
pub proof fn lemma_absent_rate<K>(w: Seq<Map<K, Rate>>, k: K)
    requires
        occurrences(w, k) == 0,
    ensures
        window_rate(w, k) == Rate::zero(),
    decreases w.len(),
{
    if w.len() > 0 {
        lemma_absent_rate(w.drop_last(), k);
    }
}

/// For each key of the window, the sum of its entries and their number.
pub open spec fn tally<K>(w: Seq<Map<K, Rate>>) -> Map<K, (Rate, nat)> {
    Map::new(|k: K| occurrences(w, k) > 0, |k: K| (window_rate(w, k), occurrences(w, k)))
}

/// A tally with the entries of one more second, as far as they are in `part`.
pub open spec fn merged<K>(base: Map<K, (Rate, nat)>, part: Map<K, Rate>) -> Map<K, (Rate, nat)> {
    Map::new(
        |k: K| base.contains_key(k) || part.contains_key(k),
        |k: K|
            if base.contains_key(k) {
                if part.contains_key(k) {
                    (base[k].0.plus(part[k]), base[k].1 + 1)
                } else {
                    base[k]
                }
            } else {
                (part[k], 1nat)
            },
    )
}

/// What the accumulator holds is the tally `t`.
pub open spec fn holds<K>(acc: Map<K, (Speed, u128)>, t: Map<K, (Rate, nat)>) -> bool {
    &&& forall|k: K| acc.contains_key(k) == t.contains_key(k)
    &&& forall|k: K| #[trigger]
        acc.contains_key(k) ==> acc[k].0@ == t[k].0 && acc[k].1 == t[k].1
}

/// What a window of speed maps holds.
pub open spec fn views<K: Coded + Copy>(maps: Seq<&SpeedMap<K>>) -> Seq<Map<K, Rate>> {
    maps.map_values(|m: &SpeedMap<K>| m@)
}

/// The averages over a window of speed maps.
pub fn average_over<K: Coded + Copy>(maps: &Vec<&SpeedMap<K>>) -> (avg: SpeedMap<K>)
    requires
        forall|i: int| 0 <= i < maps@.len() ==> (#[trigger] maps@[i]).wf(),
        forall|k: K| (#[trigger] window_rate(views(maps@), k)).fits(),
    ensures
        avg.wf(),
        avg@ == averages(views(maps@)),
{
    let ghost w = views(maps@);
    let mut acc: CodedMap<K, (Speed, u128)> = CodedMap::new();
    let n = maps.len();
    let mut i: usize = 0;
    proof {
        assert(w.take(0) =~= Seq::<Map<K, Rate>>::empty());
        assert(tally(w.take(0)) =~= Map::<K, (Rate, nat)>::empty());
    }
    while i < n
        invariant
            i <= n,
            n == maps@.len(),
            w == views(maps@),
            forall|x: int| 0 <= x < maps@.len() ==> (#[trigger] maps@[x]).wf(),
            forall|k: K| (#[trigger] window_rate(w, k)).fits(),
            acc.wf(),
            holds(acc@, tally(w.take(i as int))),
        decreases n - i,
    {
        let v = maps[i].items();
        let m = v.len();
        let mut j: usize = 0;
        let ghost base = tally(w.take(i as int));
        let ghost part = w[i as int];
        proof {
            maps@[i as int].lemma_bounded();
            lemma_listed_none(v@, part);
            assert(merged(base, Map::<K, Rate>::empty()) =~= base);
        }
        while j < m
            invariant
                j <= m,
                m == v@.len(),
                i < n,
                n == maps@.len(),
                n == w.len(),
                w == views(maps@),
                part == w[i as int],
                part.dom().finite(),
                base == tally(w.take(i as int)),
                forall|k: K| (#[trigger] window_rate(w, k)).fits(),
                lists_keys(v@, part),
                forall|x: int| 0 <= x < v@.len() ==> part[(#[trigger] v@[x]).0] == v@[x].1@,
                acc.wf(),
                holds(acc@, merged(base, listed(v@, part, j as int))),
            decreases m - j,
        {
            let (k, s) = v[j];
            proof {
                lemma_listed_next(v@, part, j as int);
                let before = listed(v@, part, j as int);
                let after = listed(v@, part, j + 1);
                assert(merged(base, after) =~= merged(base, before).insert(
                    k,
                    if base.contains_key(k) {
                        (base[k].0.plus(s@), base[k].1 + 1)
                    } else {
                        (s@, 1nat)
                    },
                ));
                lemma_window_rate_prefix(w, k, i + 1);
                lemma_window_rate_prefix(w, k, i as int);
                assert(w.take(i + 1).drop_last() =~= w.take(i as int));
                assert(w.take(i + 1).last() == part);
                assert(window_rate(w, k).fits());
            }
            match acc.get(&k) {
                Some(held) => {
                    acc.put(k, (held.0 + s, held.1 + 1));
                },
                None => {
                    acc.put(k, (s, 1));
                },
            }
            j = j + 1;
        }
        proof {
            lemma_listed_all(v@, part);
            assert(w.take(i + 1).drop_last() =~= w.take(i as int));
            assert(w.take(i + 1).last() == part);
            let next = w.take(i + 1);
            assert forall|k: K| merged(base, part).contains_key(k) == tally(next).contains_key(
                k,
            ) by {
                assert(occurrences(next, k) == occurrences(next.drop_last(), k) + if next.last().contains_key(
                    k,
                ) {
                    1nat
                } else {
                    0nat
                });
            }
            assert forall|k: K| merged(base, part).contains_key(k) implies merged(base, part)[k]
                == tally(next)[k] by {
                assert(occurrences(next, k) == occurrences(next.drop_last(), k) + if next.last().contains_key(
                    k,
                ) {
                    1nat
                } else {
                    0nat
                });
                assert(window_rate(next, k) == if next.last().contains_key(k) {
                    window_rate(next.drop_last(), k).plus(next.last()[k])
                } else {
                    window_rate(next.drop_last(), k)
                });
                if !base.contains_key(k) {
                    lemma_absent_rate(w.take(i as int), k);
                }
            }
            assert(merged(base, part) =~= tally(next));
        }
        i = i + 1;
    }
    proof {
        assert(w.take(n as int) =~= w);
    }
    let sums = acc.items();
    let mut avg: SpeedMap<K> = SpeedMap::new();
    let count = sums.len();
    let mut x: usize = 0;
    let ghost goal = averages(w);
    proof {
        acc.lemma_finite();
        assert(goal.dom() =~= acc@.dom());
        lemma_listed_none(sums@, goal);
    }
    while x < count
        invariant
            x <= count,
            count == sums@.len(),
            goal == averages(w),
            goal.dom().finite(),
            holds(acc@, tally(w)),
            lists_keys(sums@, acc@),
            lists_keys(sums@, goal),
            forall|y: int| 0 <= y < sums@.len() ==> acc@[(#[trigger] sums@[y]).0] == sums@[y].1,
            avg.wf(),
            avg@ == listed(sums@, goal, x as int),
        decreases count - x,
    {
        let (k, held) = sums[x];
        proof {
            lemma_listed_next(sums@, goal, x as int);
            assert(acc@.contains_key(k));
        }
        avg.set(k, held.0 / held.1);
        x = x + 1;
    }
    proof {
        lemma_listed_all(sums@, goal);
    }
    avg
}

/// A second in which no key has an entry changes no average.
pub proof fn lemma_empty_second<K>(w: Seq<Map<K, Rate>>)
    ensures
        averages(w.push(Map::empty())) == averages(w),
{
    let longer = w.push(Map::<K, Rate>::empty());
    assert(longer.drop_last() =~= w);
    assert forall|k: K| occurrences(longer, k) == occurrences(w, k) && window_rate(longer, k)
        == window_rate(w, k) by {
        assert(!longer.last().contains_key(k));
    }
    assert(averages(longer) =~= averages(w));
}

/// The sum of a sequence of numbers.
pub open spec fn nat_total(s: Seq<nat>) -> nat
    decreases s.len(),
{
    if s.len() == 0 {
        0
    } else {
        nat_total(s.drop_last()) + s.last()
    }
}

/// The sum of the first numbers of a sequence is within the sum of all.
pub proof fn lemma_nat_total_prefix(s: Seq<nat>, n: int)
    requires
        0 <= n <= s.len(),
    ensures
        nat_total(s.take(n)) <= nat_total(s),
    decreases s.len() - n,
{
    if n == s.len() {
        assert(s.take(n) =~= s);
    } else {
        lemma_nat_total_prefix(s, n + 1);
        assert(s.take(n + 1).drop_last() =~= s.take(n));
    }
}

/// The sum of the first numbers grows by the next number, and stays within
/// the sum of all.
pub proof fn lemma_nat_total_step(s: Seq<nat>, i: int)
    requires
        0 <= i < s.len(),
    ensures
        nat_total(s.take(i + 1)) == nat_total(s.take(i)) + s[i],
        nat_total(s.take(i + 1)) <= nat_total(s),
{
    assert(s.take(i + 1).drop_last() =~= s.take(i));
    lemma_nat_total_prefix(s, i + 1);
}

/// One more number adds itself to the sum.
pub proof fn lemma_nat_total_push(s: Seq<nat>, x: nat)
    ensures
        nat_total(s.push(x)) == nat_total(s) + x,
{
    assert(s.push(x).drop_last() =~= s);
}

/// The numbers of a list as natural numbers.
pub open spec fn amounts(s: Seq<u128>) -> Seq<nat> {
    s.map_values(|t: u128| t as nat)
}

/// Whether the numbers of a list together fit 128 bits.
pub fn total_fits(list: &Vec<u128>) -> (b: bool)
    ensures
        b == (nat_total(amounts(list@)) <= u128::MAX),
{
    let n = list.len();
    let ghost all = amounts(list@);
    let mut sum: u128 = 0;
    let mut i: usize = 0;
    proof {
        assert(all.take(0) =~= Seq::<nat>::empty());
    }
    while i < n
        invariant
            i <= n,
            n == list@.len(),
            all == amounts(list@),
            sum == nat_total(all.take(i as int)),
        decreases n - i,
    {
        let t = list[i];
        proof {
            lemma_nat_total_step(all, i as int);
        }
        if t > u128::MAX - sum {
            return false;
        }
        sum = sum + t;
        i = i + 1;
    }
    proof {
        assert(all.take(n as int) =~= all);
    }
    true
}

/// Where each second's map weighs no more than a bound, a key's sum over
/// the window is within the sum of the bounds.
pub proof fn lemma_window_rate_within<K>(w: Seq<Map<K, Rate>>, bounds: Seq<nat>, k: K)
    requires
        w.len() == bounds.len(),
        forall|i: int|
            0 <= i < w.len() ==> (#[trigger] w[i]).dom().finite() && load_of(w[i]) <= bounds[i],
    ensures
        window_rate(w, k).input + window_rate(w, k).output <= nat_total(bounds),
    decreases w.len(),
{
    if w.len() > 0 {
        lemma_window_rate_within(w.drop_last(), bounds.drop_last(), k);
        assert(w.last() == w[w.len() - 1]);
        if w.last().contains_key(k) {
            lemma_entry_within_load(w.last(), k);
        }
    }
}

/// Where each rate weighs no more than a bound, the sum of the rates is
/// within the sum of the bounds.
pub proof fn lemma_rate_total_within(t: Seq<Rate>, bounds: Seq<nat>)
    requires
        t.len() == bounds.len(),
        forall|i: int| 0 <= i < t.len() ==> (#[trigger] t[i]).input + t[i].output <= bounds[i],
    ensures
        rate_total(t).input + rate_total(t).output <= nat_total(bounds),
    decreases t.len(),
{
    if t.len() > 0 {
        lemma_rate_total_within(t.drop_last(), bounds.drop_last());
        assert(t.last() == t[t.len() - 1]);
    }
}

} // verus!
