//! The per-second traffic map and the speed maps derived from it: speed per
//! endpoint pair, speed per host, total speed, and bits per direction.

use vstd::prelude::*;
use crate::maps::{
    Coded, CodedMap, lemma_listed_all, lemma_listed_next, lemma_listed_none, listed, lists_keys,
};
use crate::net::Ipv4;
use crate::speed::{Rate, Speed};
use crate::sums::{
    accumulate, bit_sum, credit, grouped, lemma_bit_sum_credit, lemma_bit_sum_empty,
    lemma_bit_sum_insert, lemma_bit_sum_remove, lemma_bit_sum_restrict, lemma_grouped_empty,
    lemma_grouped_insert, lemma_rate_sum_accumulate, lemma_rate_sum_empty, lemma_rate_sum_insert,
    lemma_rate_sum_remove, lemma_restrict_finite, rate_sum,
};
use crate::traffic::{Direction, IpPair, StatItem, StatKey};

verus! {

/// The traffic of one second: for each key the bits observed for it. The
/// bits of all keys together never exceed `u128::MAX`.
pub struct StatsMap {
    samples: CodedMap<StatKey, u128>,
    total: u128,
}

impl View for StatsMap {
    type V = Map<StatKey, nat>;

    closed spec fn view(&self) -> Map<StatKey, nat> {
        self.samples@.map_values(|b: u128| b as nat)
    }
}

impl StatsMap {
    pub closed spec fn wf(&self) -> bool {
        &&& self.samples.wf()
        &&& self.total == bit_sum(self@)
    }

    /// The keys are finitely many, and all bits together fit 128 bits.
    pub proof fn lemma_bounded(&self)
        requires
            self.wf(),
        ensures
            self@.dom().finite(),
            bit_sum(self@) <= u128::MAX,
    {
        self.samples.lemma_finite();
        assert(self@.dom() =~= self.samples@.dom());
    }

    /// A second without traffic.
    pub fn new() -> (m: Self)
        ensures
            m.wf(),
            m@ == Map::<StatKey, nat>::empty(),
    {
        let m = StatsMap { samples: CodedMap::new(), total: 0 };
        proof {
            assert(m@ =~= Map::<StatKey, nat>::empty());
            lemma_bit_sum_empty::<StatKey>();
        }
        m
    }

    /// All bits of the second, over all keys.
    pub fn total_bits(&self) -> (t: u128)
        requires
            self.wf(),
        ensures
            t == bit_sum(self@),
    {
        self.total
    }

    /// The bits counted for `key`, if it was observed.
    pub fn get(&self, key: &StatKey) -> (r: Option<u128>)
        requires
            self.wf(),
        ensures
            r.is_some() == self@.contains_key(*key),
            r matches Some(bits) ==> bits == self@[*key],
    {
        self.samples.get(key)
    }

    /// Whether nothing was observed.
    pub fn is_empty(&self) -> (b: bool)
        requires
            self.wf(),
        ensures
            b == (self@ == Map::<StatKey, nat>::empty()),
    {
        let b = self.samples.is_empty();
        proof {
            if b {
                assert(self@ =~= Map::<StatKey, nat>::empty());
            } else {
                assert(self@.dom() =~= self.samples@.dom());
                if self@ == Map::<StatKey, nat>::empty() {
                    assert(self.samples@ =~= Map::<StatKey, u128>::empty());
                }
            }
        }
        b
    }

    /// Folds one sample into the second: its bits are added to what its key
    /// holds, a key seen for the first time starting from zero. A sample
    /// that would take the second's bits beyond `u128::MAX` is refused and
    /// changes nothing.
    pub fn record(&mut self, item: StatItem) -> (taken: bool)
        requires
            old(self).wf(),
        ensures
            final(self).wf(),
            taken == (bit_sum(old(self)@) + item.value.size <= u128::MAX),
            taken ==> final(self)@ == credit(old(self)@, item.key, item.value.size as nat),
            !taken ==> final(self)@ == old(self)@,
    {
        let bits = item.value.size;
        if bits > u128::MAX - self.total {
            return false;
        }
        proof {
            self.lemma_bounded();
            if self@.contains_key(item.key) {
                lemma_bit_sum_remove(self@, item.key);
            }
            lemma_bit_sum_credit(self@, item.key, bits as nat);
        }
        let held = match self.samples.get(&item.key) {
            Some(b) => b,
            None => 0,
        };
        self.samples.put(item.key, held + bits);
        self.total = self.total + bits;
        proof {
            assert(self@ =~= credit(old(self)@, item.key, bits as nat));
        }
        true
    }

    /// The samples of the second, each key once, in no particular order.
    pub fn items(&self) -> (v: Vec<(StatKey, u128)>)
        requires
            self.wf(),
        ensures
            lists_keys(v@, self@),
            forall|i: int| 0 <= i < v@.len() ==> self@[(#[trigger] v@[i]).0] == v@[i].1,
            v@.len() == self@.dom().len(),
    {
        let v = self.samples.items();
        proof {
            assert(self@.dom() =~= self.samples@.dom());
        }
        v
    }
}

/// Speeds by key.
pub struct SpeedMap<K> {
    speeds: CodedMap<K, Speed>,
}

impl<K: Coded + Copy> View for SpeedMap<K> {
    type V = Map<K, Rate>;

    closed spec fn view(&self) -> Map<K, Rate> {
        self.speeds@.map_values(|s: Speed| s@)
    }
}

/// Input and output of all entries together.
pub open spec fn load_of<K>(m: Map<K, Rate>) -> nat {
    rate_sum(m).input + rate_sum(m).output
}

/// No entry of a finite map of rates is larger than the sum of all.
pub proof fn lemma_entry_within_load<K>(m: Map<K, Rate>, k: K)
    requires
        m.dom().finite(),
        m.contains_key(k),
    ensures
        m[k].input + m[k].output <= load_of(m),
{
    lemma_rate_sum_remove(m, k);
}

impl<K: Coded + Copy> SpeedMap<K> {
    pub closed spec fn wf(&self) -> bool {
        self.speeds.wf()
    }

    /// The keys are finitely many, and every rate fits 128 bits.
    pub proof fn lemma_bounded(&self)
        requires
            self.wf(),
        ensures
            self@.dom().finite(),
            forall|k: K| self@.contains_key(k) ==> (#[trigger] self@[k]).fits(),
    {
        self.speeds.lemma_finite();
        assert(self@.dom() =~= self.speeds@.dom());
    }

    /// The map without entries.
    pub fn new() -> (m: Self)
        ensures
            m.wf(),
            m@ == Map::<K, Rate>::empty(),
    {
        let m = SpeedMap { speeds: CodedMap::new() };
        proof {
            assert(m@ =~= Map::<K, Rate>::empty());
        }
        m
    }

    /// The speed held for `key`, if there is one.
    pub fn get(&self, key: &K) -> (r: Option<Speed>)
        requires
            self.wf(),
        ensures
            r.is_some() == self@.contains_key(*key),
            r matches Some(s) ==> s@ == self@[*key],
    {
        self.speeds.get(key)
    }

    /// Whether the map has no entry.
    pub fn is_empty(&self) -> (b: bool)
        requires
            self.wf(),
        ensures
            b == (self@ == Map::<K, Rate>::empty()),
    {
        let b = self.speeds.is_empty();
        proof {
            if b {
                assert(self@ =~= Map::<K, Rate>::empty());
            } else {
                assert(self@.dom() =~= self.speeds@.dom());
                if self@ == Map::<K, Rate>::empty() {
                    assert(self.speeds@ =~= Map::<K, Speed>::empty());
                }
            }
        }
        b
    }

    /// Adds `s` to the speed of `key`, which starts from zero when absent.
    pub fn add(&mut self, key: K, s: Speed)
        requires
            old(self).wf(),
            old(self)@.contains_key(key) ==> old(self)@[key].plus(s@).fits(),
        ensures
            final(self).wf(),
            final(self)@ == accumulate(old(self)@, key, s@),
    {
        let sum = match self.speeds.get(&key) {
            Some(held) => held + s,
            None => s,
        };
        self.speeds.put(key, sum);
        proof {
            assert(self@ =~= accumulate(old(self)@, key, s@));
        }
    }

    /// Stores `s` as the speed of `key`.
    pub fn set(&mut self, key: K, s: Speed)
        requires
            old(self).wf(),
        ensures
            final(self).wf(),
            final(self)@ == old(self)@.insert(key, s@),
    {
        self.speeds.put(key, s);
        proof {
            assert(self@ =~= old(self)@.insert(key, s@));
        }
    }

    /// The entries, each key once, in no particular order.
    pub fn items(&self) -> (v: Vec<(K, Speed)>)
        requires
            self.wf(),
        ensures
            lists_keys(v@, self@),
            forall|i: int| 0 <= i < v@.len() ==> self@[(#[trigger] v@[i]).0] == v@[i].1@,
            v@.len() == self@.dom().len(),
    {
        let v = self.speeds.items();
        proof {
            assert(self@.dom() =~= self.speeds@.dom());
        }
        v
    }
}

/// What each sample of `m` adds to the speed of its pair.
pub open spec fn shares(m: Map<StatKey, nat>) -> Map<StatKey, Rate> {
    Map::new(|k: StatKey| m.contains_key(k), |k: StatKey| k.share_of(m[k]))
}

/// The speed of each endpoint pair in one second's traffic: one entry for
/// the canonical pair of every sample that is not between strangers,
/// holding the sum of the shares of the samples that fall on it. Samples
/// between strangers are discarded.
pub open spec fn pair_rates(m: Map<StatKey, nat>) -> Map<IpPair, Rate> {
    grouped(shares(m), |k: StatKey| k.counts_for())
}

/// The host that a pair counts for: the first endpoint of a pair that is
/// not local, none for a local pair.
pub open spec fn host_of(p: IpPair) -> Option<Ipv4> {
    if p.is_local {
        None
    } else {
        Some(p.src_ip)
    }
}

/// The speed of each host: the sum of the speeds of the pairs, local ones
/// left out, that count for it.
pub open spec fn host_rates(pm: Map<IpPair, Rate>) -> Map<Ipv4, Rate> {
    grouped(pm, |p: IpPair| host_of(p))
}

/// The bits of the samples of `m` that have direction `d`.
pub open spec fn direction_bits(m: Map<StatKey, nat>, d: Direction) -> nat {
    bit_sum(m.restrict(Set::new(|k: StatKey| k.direction == d)))
}

/// The bits of one second by direction.
#[derive(Clone, Copy, Debug, PartialEq, Eq, Structural)]
pub struct DirectionTotals {
    pub outgoing: u128,
    pub incoming: u128,
    pub local: u128,
    pub neither: u128,
}

impl DirectionTotals {
    /// These are the bits of `m` by direction.
    pub open spec fn totals_of(self, m: Map<StatKey, nat>) -> bool {
        &&& self.outgoing == direction_bits(m, Direction::Outgoing)
        &&& self.incoming == direction_bits(m, Direction::Incoming)
        &&& self.local == direction_bits(m, Direction::Local)
        &&& self.neither == direction_bits(m, Direction::Neither)
    }
}

proof fn lemma_direction_bits_empty(d: Direction)
    ensures
        direction_bits(Map::<StatKey, nat>::empty(), d) == 0,
{
    assert(Map::<StatKey, nat>::empty().restrict(Set::new(|k: StatKey| k.direction == d))
        =~= Map::<StatKey, nat>::empty());
    lemma_bit_sum_empty::<StatKey>();
}

proof fn lemma_direction_bits_insert(m: Map<StatKey, nat>, k: StatKey, bits: nat, d: Direction)
    requires
        m.dom().finite(),
        !m.contains_key(k),
    ensures
        direction_bits(m.insert(k, bits), d) == direction_bits(m, d) + if k.direction == d {
            bits
        } else {
            0
        },
        direction_bits(m.insert(k, bits), d) <= bit_sum(m.insert(k, bits)),
{
    let s = Set::new(|x: StatKey| x.direction == d);
    lemma_restrict_finite(m, s);
    if k.direction == d {
        assert(m.insert(k, bits).restrict(s) =~= m.restrict(s).insert(k, bits));
        lemma_bit_sum_insert(m.restrict(s), k, bits);
    } else {
        assert(m.insert(k, bits).restrict(s) =~= m.restrict(s));
    }
    lemma_bit_sum_restrict(m.insert(k, bits), s);
}

/// The bits of one second's traffic, summed by direction.
pub fn direction_totals(raw: &StatsMap) -> (t: DirectionTotals)
    requires
        raw.wf(),
    ensures
        t.totals_of(raw@),
{
    let v = raw.items();
    let mut t = DirectionTotals { outgoing: 0, incoming: 0, local: 0, neither: 0 };
    let n = v.len();
    let mut i: usize = 0;
    proof {
        raw.lemma_bounded();
        lemma_listed_none(v@, raw@);
        lemma_direction_bits_empty(Direction::Outgoing);
        lemma_direction_bits_empty(Direction::Incoming);
        lemma_direction_bits_empty(Direction::Local);
        lemma_direction_bits_empty(Direction::Neither);
    }
    while i < n
        invariant
            i <= n,
            n == v@.len(),
            raw.wf(),
            raw@.dom().finite(),
            bit_sum(raw@) <= u128::MAX,
            lists_keys(v@, raw@),
            forall|j: int| 0 <= j < v@.len() ==> raw@[(#[trigger] v@[j]).0] == v@[j].1,
            t.totals_of(listed(v@, raw@, i as int)),
        decreases n - i,
    {
        let (k, bits) = v[i];
        proof {
            let before = listed(v@, raw@, i as int);
            lemma_listed_next(v@, raw@, i as int);
            lemma_direction_bits_insert(before, k, bits as nat, Direction::Outgoing);
            lemma_direction_bits_insert(before, k, bits as nat, Direction::Incoming);
            lemma_direction_bits_insert(before, k, bits as nat, Direction::Local);
            lemma_direction_bits_insert(before, k, bits as nat, Direction::Neither);
            lemma_bit_sum_restrict(
                raw@,
                Set::new(|x: StatKey| exists|j: int| 0 <= j < i + 1 && (#[trigger] v@[j]).0 == x),
            );
        }
        match k.direction {
            Direction::Outgoing => {
                t.outgoing = t.outgoing + bits;
            },
            Direction::Incoming => {
                t.incoming = t.incoming + bits;
            },
            Direction::Local => {
                t.local = t.local + bits;
            },
            Direction::Neither => {
                t.neither = t.neither + bits;
            },
        }
        i = i + 1;
    }
    proof {
        lemma_listed_all(v@, raw@);
    }
    t
}

proof fn lemma_shares_insert(m: Map<StatKey, nat>, k: StatKey, bits: nat)
    requires
        m.dom().finite(),
        !m.contains_key(k),
    ensures
        shares(m).dom().finite(),
        !shares(m).contains_key(k),
        shares(m.insert(k, bits)) == shares(m).insert(k, k.share_of(bits)),
        pair_rates(m.insert(k, bits)) == match k.counts_for() {
            Some(p) => accumulate(pair_rates(m), p, k.share_of(bits)),
            None => pair_rates(m),
        },
{
    assert(shares(m).dom() =~= m.dom());
    assert(shares(m.insert(k, bits)) =~= shares(m).insert(k, k.share_of(bits)));
    lemma_grouped_insert(shares(m), |x: StatKey| x.counts_for(), k, k.share_of(bits));
}

/// The speed of each endpoint pair in one second's traffic.
pub fn pair_speeds(raw: &StatsMap) -> (pairs: SpeedMap<IpPair>)
    requires
        raw.wf(),
    ensures
        pairs.wf(),
        pairs@ == pair_rates(raw@),
        load_of(pairs@) <= bit_sum(raw@),
{
    let v = raw.items();
    let mut pairs: SpeedMap<IpPair> = SpeedMap::new();
    let n = v.len();
    let mut i: usize = 0;
    proof {
        raw.lemma_bounded();
        lemma_listed_none(v@, raw@);
        assert(shares(Map::<StatKey, nat>::empty()) =~= Map::<StatKey, Rate>::empty());
        lemma_grouped_empty::<StatKey, IpPair>(|x: StatKey| x.counts_for());
        lemma_bit_sum_empty::<StatKey>();
        lemma_rate_sum_empty::<IpPair>();
    }
    while i < n
        invariant
            i <= n,
            n == v@.len(),
            raw.wf(),
            raw@.dom().finite(),
            bit_sum(raw@) <= u128::MAX,
            lists_keys(v@, raw@),
            forall|j: int| 0 <= j < v@.len() ==> raw@[(#[trigger] v@[j]).0] == v@[j].1,
            pairs.wf(),
            pairs@ == pair_rates(listed(v@, raw@, i as int)),
            load_of(pairs@) <= bit_sum(listed(v@, raw@, i as int)),
        decreases n - i,
    {
        let (k, bits) = v[i];
        proof {
            let before = listed(v@, raw@, i as int);
            lemma_listed_next(v@, raw@, i as int);
            lemma_shares_insert(before, k, bits as nat);
            lemma_bit_sum_insert(before, k, bits as nat);
            lemma_bit_sum_restrict(
                raw@,
                Set::new(|x: StatKey| exists|j: int| 0 <= j < i + 1 && (#[trigger] v@[j]).0 == x),
            );
            pairs.lemma_bounded();
            lemma_rate_sum_accumulate(pairs@, k.pair_of(), k.share_of(bits as nat));
            if pairs@.contains_key(k.pair_of()) {
                lemma_entry_within_load(pairs@, k.pair_of());
            }
        }
        match k.counted_pair() {
            Some(p) => {
                pairs.add(p, k.share(bits));
            },
            None => {},
        }
        i = i + 1;
    }
    proof {
        lemma_listed_all(v@, raw@);
    }
    pairs
}

/// The speed of each host, from the speeds of the pairs.
pub fn host_speeds(pairs: &SpeedMap<IpPair>) -> (hosts: SpeedMap<Ipv4>)
    requires
        pairs.wf(),
        load_of(pairs@) <= u128::MAX,
    ensures
        hosts.wf(),
        hosts@ == host_rates(pairs@),
        load_of(hosts@) <= load_of(pairs@),
{
    let v = pairs.items();
    let mut hosts: SpeedMap<Ipv4> = SpeedMap::new();
    let n = v.len();
    let mut i: usize = 0;
    proof {
        pairs.lemma_bounded();
        lemma_listed_none(v@, pairs@);
        lemma_grouped_empty::<IpPair, Ipv4>(|p: IpPair| host_of(p));
        lemma_rate_sum_empty::<IpPair>();
        lemma_rate_sum_empty::<Ipv4>();
    }
    while i < n
        invariant
            i <= n,
            n == v@.len(),
            pairs.wf(),
            pairs@.dom().finite(),
            load_of(pairs@) <= u128::MAX,
            lists_keys(v@, pairs@),
            forall|j: int| 0 <= j < v@.len() ==> pairs@[(#[trigger] v@[j]).0] == v@[j].1@,
            hosts.wf(),
            hosts@ == host_rates(listed(v@, pairs@, i as int)),
            load_of(hosts@) <= load_of(listed(v@, pairs@, i as int)),
        decreases n - i,
    {
        let (p, s) = v[i];
        proof {
            let before = listed(v@, pairs@, i as int);
            lemma_listed_next(v@, pairs@, i as int);
            lemma_grouped_insert(before, |p: IpPair| host_of(p), p, s@);
            lemma_rate_sum_insert(before, p, s@);
            crate::sums::lemma_rate_sum_restrict(
                pairs@,
                Set::new(|x: IpPair| exists|j: int| 0 <= j < i + 1 && (#[trigger] v@[j]).0 == x),
            );
            hosts.lemma_bounded();
            if !p.is_local {
                lemma_rate_sum_accumulate(hosts@, p.src_ip, s@);
                if hosts@.contains_key(p.src_ip) {
                    lemma_entry_within_load(hosts@, p.src_ip);
                }
            }
        }
        if !p.is_local {
            hosts.add(p.src_ip, s);
        }
        i = i + 1;
    }
    proof {
        lemma_listed_all(v@, pairs@);
    }
    hosts
}

/// The speed of all hosts together.
pub fn total_speed(hosts: &SpeedMap<Ipv4>) -> (total: Speed)
    requires
        hosts.wf(),
        load_of(hosts@) <= u128::MAX,
    ensures
        total@ == rate_sum(hosts@),
{
    let v = hosts.items();
    let mut total = Speed { input: 0, output: 0 };
    let n = v.len();
    let mut i: usize = 0;
    proof {
        hosts.lemma_bounded();
        lemma_listed_none(v@, hosts@);
        lemma_rate_sum_empty::<Ipv4>();
    }
    while i < n
        invariant
            i <= n,
            n == v@.len(),
            hosts.wf(),
            hosts@.dom().finite(),
            load_of(hosts@) <= u128::MAX,
            lists_keys(v@, hosts@),
            forall|j: int| 0 <= j < v@.len() ==> hosts@[(#[trigger] v@[j]).0] == v@[j].1@,
            total@ == rate_sum(listed(v@, hosts@, i as int)),
        decreases n - i,
    {
        let (h, s) = v[i];
        proof {
            let before = listed(v@, hosts@, i as int);
            lemma_listed_next(v@, hosts@, i as int);
            lemma_rate_sum_insert(before, h, s@);
            crate::sums::lemma_rate_sum_restrict(
                hosts@,
                Set::new(|x: Ipv4| exists|j: int| 0 <= j < i + 1 && (#[trigger] v@[j]).0 == x),
            );
        }
        total = total + s;
        i = i + 1;
    }
    proof {
        lemma_listed_all(v@, hosts@);
    }
    total
}

/// Every entry of the pair speeds is the canonical pair of a sample that
/// has one of its endpoints at the interface, and canonical pairs are
/// oriented: a local pair has its smaller address first; the pair of an
/// outgoing sample starts with the sample's destination and the pair of
/// an incoming sample with its source, which is the remote endpoint.
pub proof fn lemma_pair_entries_canonical(m: Map<StatKey, nat>, p: IpPair)
    requires
        pair_rates(m).contains_key(p),
    ensures
        p.is_local ==> p.src_ip.bits <= p.dst_ip.bits,
        exists|k: StatKey|
            {
                &&& #[trigger] m.contains_key(k)
                &&& k.direction != Direction::Neither
                &&& k.pair_of() == p
                &&& p.is_local == (k.direction == Direction::Local)
                &&& k.direction == Direction::Outgoing ==> p.src_ip == k.dst_ip && p.dst_ip
                    == k.src_ip
                &&& k.direction == Direction::Incoming ==> p.src_ip == k.src_ip && p.dst_ip
                    == k.dst_ip
            },
{
    let group = |k: StatKey| k.counts_for();
    let k = choose|k: StatKey| shares(m).contains_key(k) && #[trigger] group(k) == Some(p);
    assert(m.contains_key(k));
}

/// Of the canonical pair of a sample with one endpoint at the interface,
/// the first endpoint is the remote one and the second is the
/// interface's; the pair of a sample with both endpoints there is local.
pub proof fn lemma_pair_starts_remote(k: StatKey, src_is_ours: bool, dst_is_ours: bool)
    requires
        k.direction == Direction::classify(src_is_ours, dst_is_ours),
    ensures
        k.counts_for() is Some <==> src_is_ours || dst_is_ours,
        k.direction == Direction::Local <==> k.pair_of().is_local,
        k.direction == Direction::Outgoing ==> k.pair_of().src_ip == k.dst_ip && !dst_is_ours
            && k.pair_of().dst_ip == k.src_ip && src_is_ours,
        k.direction == Direction::Incoming ==> k.pair_of().src_ip == k.src_ip && !src_is_ours
            && k.pair_of().dst_ip == k.dst_ip && dst_is_ours,
{
}

/// A sample between strangers counts for no pair, and so for no host and
/// not for the total: the pair speeds are the same without it.
pub proof fn lemma_stranger_sample_ignored(m: Map<StatKey, nat>, k: StatKey)
    requires
        m.dom().finite(),
        m.contains_key(k),
        k.direction == Direction::Neither,
    ensures
        pair_rates(m) == pair_rates(m.remove(k)),
{
    let rest = m.remove(k);
    assert(rest.insert(k, m[k]) =~= m);
    lemma_shares_insert(rest, k, m[k]);
}

/// A pair that is local counts for no host: the host speeds are the same
/// without it.
pub proof fn lemma_local_pair_ignored(pm: Map<IpPair, Rate>, p: IpPair)
    requires
        p.is_local,
    ensures
        host_rates(pm.remove(p)) == host_rates(pm),
{
    let group = |q: IpPair| host_of(q);
    let a = host_rates(pm.remove(p));
    let b = host_rates(pm);
    assert forall|h: Ipv4| a.contains_key(h) == b.contains_key(h) by {
        if a.contains_key(h) {
            let q = choose|q: IpPair| pm.remove(p).contains_key(q) && #[trigger] group(q) == Some(h);
            assert(pm.contains_key(q) && group(q) == Some(h));
        }
        if b.contains_key(h) {
            let q = choose|q: IpPair| pm.contains_key(q) && #[trigger] group(q) == Some(h);
            assert(pm.remove(p).contains_key(q) && group(q) == Some(h));
        }
    }
    assert forall|h: Ipv4| a.contains_key(h) implies a[h] == b[h] by {
        assert(crate::sums::members(pm.remove(p), group, h) =~= crate::sums::members(pm, group, h));
    }
    assert(a =~= b);
}

/// A sample between two addresses of the interface counts for no host and
/// not for the total: host speeds and total speed are the same without it.
pub proof fn lemma_local_sample_ignored(m: Map<StatKey, nat>, k: StatKey)
    requires
        m.dom().finite(),
        m.contains_key(k),
        k.direction == Direction::Local,
    ensures
        host_rates(pair_rates(m)) == host_rates(pair_rates(m.remove(k))),
        rate_sum(host_rates(pair_rates(m))) == rate_sum(host_rates(pair_rates(m.remove(k)))),
{
    let rest = m.remove(k);
    assert(rest.insert(k, m[k]) =~= m);
    lemma_shares_insert(rest, k, m[k]);
    let p = k.pair_of();
    let before = pair_rates(rest);
    let after = pair_rates(m);
    assert(after == accumulate(before, p, k.share_of(m[k])));
    lemma_local_pair_ignored(after, p);
    lemma_local_pair_ignored(before, p);
    assert(after.remove(p) =~= before.remove(p));
}

/// A second without traffic has no pair, no host, and the speed zero.
pub proof fn lemma_silent_second()
    ensures
        pair_rates(Map::<StatKey, nat>::empty()) == Map::<IpPair, Rate>::empty(),
        host_rates(Map::<IpPair, Rate>::empty()) == Map::<Ipv4, Rate>::empty(),
        rate_sum(Map::<Ipv4, Rate>::empty()) == Rate::zero(),
        direction_sums(Map::<StatKey, nat>::empty()) == (DirectionBits {
            outgoing: 0,
            incoming: 0,
            local: 0,
            neither: 0,
        }),
{
    assert(shares(Map::<StatKey, nat>::empty()) =~= Map::<StatKey, Rate>::empty());
    lemma_grouped_empty::<StatKey, IpPair>(|x: StatKey| x.counts_for());
    lemma_grouped_empty::<IpPair, Ipv4>(|p: IpPair| host_of(p));
    lemma_rate_sum_empty::<Ipv4>();
    lemma_direction_bits_empty(Direction::Outgoing);
    lemma_direction_bits_empty(Direction::Incoming);
    lemma_direction_bits_empty(Direction::Local);
    lemma_direction_bits_empty(Direction::Neither);
}

/// The bits of one second by direction, as numbers.
pub struct DirectionBits {
    pub outgoing: nat,
    pub incoming: nat,
    pub local: nat,
    pub neither: nat,
}

impl View for DirectionTotals {
    type V = DirectionBits;

    open spec fn view(&self) -> DirectionBits {
        DirectionBits {
            outgoing: self.outgoing as nat,
            incoming: self.incoming as nat,
            local: self.local as nat,
            neither: self.neither as nat,
        }
    }
}

/// The bits of `m` by direction.
pub open spec fn direction_sums(m: Map<StatKey, nat>) -> DirectionBits {
    DirectionBits {
        outgoing: direction_bits(m, Direction::Outgoing),
        incoming: direction_bits(m, Direction::Incoming),
        local: direction_bits(m, Direction::Local),
        neither: direction_bits(m, Direction::Neither),
    }
}

/// All that the statistics keep of one second: its traffic, and what is
/// derived from it.
pub struct Second {
    directions: DirectionTotals,
    raw: StatsMap,
    pairs: SpeedMap<IpPair>,
    hosts: SpeedMap<Ipv4>,
    total: Speed,
}

impl Second {
    /// The bits of the second by direction.
    pub closed spec fn directions(&self) -> DirectionBits {
        self.directions@
    }

    /// The traffic of the second.
    pub closed spec fn raw(&self) -> Map<StatKey, nat> {
        self.raw@
    }

    /// The speed of each endpoint pair.
    pub closed spec fn pairs(&self) -> Map<IpPair, Rate> {
        self.pairs@
    }

    /// The speed of each host.
    pub closed spec fn hosts(&self) -> Map<Ipv4, Rate> {
        self.hosts@
    }

    /// The speed of all hosts together.
    pub closed spec fn total(&self) -> Rate {
        self.total@
    }

    /// The parts are well formed.
    pub closed spec fn wf(&self) -> bool {
        &&& self.raw.wf()
        &&& self.pairs.wf()
        &&& self.hosts.wf()
    }

    /// What is derived follows from the traffic.
    pub open spec fn derived(&self) -> bool {
        &&& self.directions() == direction_sums(self.raw())
        &&& self.pairs() == pair_rates(self.raw())
        &&& self.hosts() == host_rates(self.pairs())
        &&& self.total() == rate_sum(self.hosts())
        &&& self.raw().dom().finite()
        &&& self.pairs().dom().finite()
        &&& self.hosts().dom().finite()
        &&& load_of(self.hosts()) <= load_of(self.pairs()) <= bit_sum(self.raw()) <= u128::MAX
    }

    /// Derives the speeds of one second from its traffic.
    pub fn of(raw: StatsMap) -> (s: Second)
        requires
            raw.wf(),
        ensures
            s.wf(),
            s.derived(),
            s.raw() == raw@,
    {
        let directions = direction_totals(&raw);
        let pairs = pair_speeds(&raw);
        proof {
            raw.lemma_bounded();
        }
        let hosts = host_speeds(&pairs);
        let total = total_speed(&hosts);
        proof {
            pairs.lemma_bounded();
            hosts.lemma_bounded();
        }
        Second { directions, raw, pairs, hosts, total }
    }

    /// The traffic of the second.
    pub fn traffic(&self) -> (m: &StatsMap)
        requires
            self.wf(),
        ensures
            m.wf(),
            m@ == self.raw(),
    {
        &self.raw
    }

    /// The speed of each endpoint pair in the second.
    pub fn pair_map(&self) -> (m: &SpeedMap<IpPair>)
        requires
            self.wf(),
        ensures
            m.wf(),
            m@ == self.pairs(),
    {
        &self.pairs
    }

    /// The speed of each host in the second.
    pub fn host_map(&self) -> (m: &SpeedMap<Ipv4>)
        requires
            self.wf(),
        ensures
            m.wf(),
            m@ == self.hosts(),
    {
        &self.hosts
    }

    /// The speed of all hosts together in the second.
    pub fn total_speed(&self) -> (s: Speed)
        ensures
            s@ == self.total(),
    {
        self.total
    }

    /// The bits of the second by direction.
    pub fn direction_totals(&self) -> (t: DirectionTotals)
        ensures
            t@ == self.directions(),
    {
        self.directions
    }
}

} // verus!
