//! Hash maps whose keys are coded values, and the lists of their entries
//! over which the statistics are folded.

use vstd::prelude::*;
use vstd::std_specs::iter::IteratorSpec;
use std::collections::HashMap;
use crate::sums::lemma_restrict_finite;

verus! {

/// A type whose values have distinct 128-bit codes, by which hash maps key them.
pub trait Coded: Sized {
    /// The code of a value.
    spec fn code_of(&self) -> u128;

    /// Computes the code.
    fn code(&self) -> (c: u128)
        ensures
            c == self.code_of(),
    ;

    /// Different values have different codes.
    proof fn lemma_code_injective(a: Self, b: Self)
        ensures
            a.code_of() == b.code_of() ==> a == b,
    ;
}

/// The keys of `v` are the keys of `m`, each of them once.
pub open spec fn lists_keys<K, X, V>(v: Seq<(K, X)>, m: Map<K, V>) -> bool {
    &&& forall|i: int| 0 <= i < v.len() ==> m.contains_key((#[trigger] v[i]).0)
    &&& forall|i: int, j: int| 0 <= i < j < v.len() ==> (#[trigger] v[i]).0 != (#[trigger] v[j]).0
    &&& forall|k: K| #[trigger] m.contains_key(k) ==> exists|i: int| 0 <= i < v.len() && (#[trigger] v[i]).0 == k
}

/// The part of `m` on the keys of the first `n` entries of `v`.
pub open spec fn listed<K, X, V>(v: Seq<(K, X)>, m: Map<K, V>, n: int) -> Map<K, V> {
    m.restrict(Set::new(|k: K| exists|j: int| 0 <= j < n && (#[trigger] v[j]).0 == k))
}

/// Before the first entry nothing is listed.
pub proof fn lemma_listed_none<K, X, V>(v: Seq<(K, X)>, m: Map<K, V>)
    ensures
        listed(v, m, 0) == Map::<K, V>::empty(),
{
    assert(listed(v, m, 0) =~= Map::<K, V>::empty());
}

/// Each entry adds one key that was not listed before.
pub proof fn lemma_listed_next<K, X, V>(v: Seq<(K, X)>, m: Map<K, V>, i: int)
    requires
        lists_keys(v, m),
        m.dom().finite(),
        0 <= i < v.len(),
    ensures
        listed(v, m, i).dom().finite(),
        !listed(v, m, i).contains_key(v[i].0),
        listed(v, m, i + 1) == listed(v, m, i).insert(v[i].0, m[v[i].0]),
{
    lemma_restrict_finite(m, Set::new(|k: K| exists|j: int| 0 <= j < i && (#[trigger] v[j]).0 == k));
    if listed(v, m, i).contains_key(v[i].0) {
        let j = choose|j: int| 0 <= j < i && (#[trigger] v[j]).0 == v[i].0;
        assert(v[j].0 != v[i].0);
    }
    let a = listed(v, m, i + 1);
    let b = listed(v, m, i).insert(v[i].0, m[v[i].0]);
    assert forall|k: K| a.contains_key(k) == b.contains_key(k) by {
        if a.contains_key(k) {
            let j = choose|j: int| 0 <= j < i + 1 && (#[trigger] v[j]).0 == k;
            if j < i {
                assert(listed(v, m, i).contains_key(k));
            }
        }
        if b.contains_key(k) {
            if k == v[i].0 {
                assert(0 <= i < i + 1 && v[i].0 == k);
            } else {
                let j = choose|j: int| 0 <= j < i && (#[trigger] v[j]).0 == k;
                assert(0 <= j < i + 1 && v[j].0 == k);
            }
        }
    }
    assert(a =~= b);
}

/// After the last entry all of `m` is listed.
pub proof fn lemma_listed_all<K, X, V>(v: Seq<(K, X)>, m: Map<K, V>)
    requires
        lists_keys(v, m),
    ensures
        listed(v, m, v.len() as int) == m,
{
    assert forall|k: K| m.contains_key(k) implies listed(v, m, v.len() as int).contains_key(k) by {
        let i = choose|i: int| 0 <= i < v.len() && (#[trigger] v[i]).0 == k;
        assert(0 <= i < v.len() && v[i].0 == k);
    }
    assert(listed(v, m, v.len() as int) =~= m);
}

/// A list of the keys of a finite map is as long as the map is large.
pub proof fn lemma_lists_len<K, X, V>(v: Seq<(K, X)>, m: Map<K, V>)
    requires
        lists_keys(v, m),
        m.dom().finite(),
    ensures
        v.len() == m.dom().len(),
{
    let keys = v.map_values(|e: (K, X)| e.0);
    assert(keys.no_duplicates());
    keys.unique_seq_to_set();
    assert forall|k: K| keys.to_set().contains(k) == m.dom().contains(k) by {
        if keys.to_set().contains(k) {
            let i = choose|i: int| 0 <= i < keys.len() && keys[i] == k;
            assert(v[i].0 == k);
        }
        if m.dom().contains(k) {
            let i = choose|i: int| 0 <= i < v.len() && (#[trigger] v[i]).0 == k;
            assert(keys[i] == k);
        }
    }
    assert(keys.to_set() =~= m.dom());
}

/// The entries of a hash map, in the order in which the map hands them out.
fn entries<V: Copy>(m: &HashMap<u128, V>) -> (v: Vec<(u128, V)>)
    ensures
        lists_keys(v@, m@),
        forall|i: int| 0 <= i < v@.len() ==> m@[(#[trigger] v@[i]).0] == v@[i].1,
{
    broadcast use vstd::std_specs::hash::group_hash_axioms;

    let mut v: Vec<(u128, V)> = Vec::new();
    let ghost s = vstd::std_specs::hash::spec_hash_map_iter(m).remaining();
    for kv in it: m.iter()
        invariant
            it.seq() == s,
            v@.len() == it.index(),
            s.len() == m@.dom().len(),
            s.no_duplicates(),
            forall|i: int|
                0 <= i < s.len() ==> m@.contains_key(*(#[trigger] s[i]).0) && m@[*s[i].0]
                    == *s[i].1,
            forall|k: u128| m@.contains_key(k) ==> s.contains((&k, &m@[k])),
            forall|i: int|
                0 <= i < v@.len() ==> (#[trigger] v@[i]).0 == *s[i].0 && v@[i].1 == *s[i].1,
    {
        let (k, val) = kv;
        v.push((*k, *val));
    }
    proof {
        assert forall|i: int, j: int| 0 <= i < j < v@.len() implies (#[trigger] v@[i]).0 != (
        #[trigger] v@[j]).0 by {
            if v@[i].0 == v@[j].0 {
                assert(s[i] == s[j]);
            }
        }
        assert forall|k: u128| #[trigger] m@.contains_key(k) implies exists|i: int|
            0 <= i < v@.len() && (#[trigger] v@[i]).0 == k by {
            let i = s.index_of((&k, &m@[k]));
            assert(v@[i].0 == k);
        }
    }
    v
}

/// A hash map from coded keys to values, keyed inside by the codes.
pub struct CodedMap<K, X> {
    entries: HashMap<u128, (K, X)>,
}

impl<K: Coded + Copy, X: Copy> View for CodedMap<K, X> {
    type V = Map<K, X>;

    closed spec fn view(&self) -> Map<K, X> {
        Map::new(
            |k: K| self.entries@.contains_key(k.code_of()),
            |k: K| self.entries@[k.code_of()].1,
        )
    }
}

impl<K: Coded + Copy, X: Copy> CodedMap<K, X> {
    /// Every entry is stored under the code of its key.
    pub closed spec fn wf(&self) -> bool {
        forall|c: u128| #[trigger]
            self.entries@.contains_key(c) ==> self.entries@[c].0.code_of() == c
    }

    /// A well-formed map has finitely many keys.
    pub proof fn lemma_finite(&self)
        requires
            self.wf(),
        ensures
            self@.dom().finite(),
    {
        broadcast use vstd::std_specs::hash::group_hash_axioms;

        let f = |c: u128| self.entries@[c].0;
        self.entries@.dom().lemma_map_finite(f);
        assert forall|k: K| self@.dom().contains(k) == self.entries@.dom().map(f).contains(
            k,
        ) by {
            if self@.dom().contains(k) {
                let c = k.code_of();
                assert(self.entries@.contains_key(c));
                K::lemma_code_injective(self.entries@[c].0, k);
                assert(self.entries@.dom().contains(c) && f(c) == k);
            }
            if self.entries@.dom().map(f).contains(k) {
                let c = choose|c: u128| self.entries@.dom().contains(c) && f(c) == k;
                assert(self.entries@.contains_key(c));
            }
        }
        assert(self@.dom() =~= self.entries@.dom().map(f));
    }

    /// The empty map.
    pub fn new() -> (m: Self)
        ensures
            m.wf(),
            m@ == Map::<K, X>::empty(),
    {
        broadcast use vstd::std_specs::hash::group_hash_axioms;

        let m = CodedMap { entries: HashMap::new() };
        assert(m@ =~= Map::<K, X>::empty());
        m
    }

    /// The value stored for `k`, if there is one.
    pub fn get(&self, k: &K) -> (r: Option<X>)
        requires
            self.wf(),
        ensures
            r == if self@.contains_key(*k) {
                Some(self@[*k])
            } else {
                None
            },
    {
        broadcast use vstd::std_specs::hash::group_hash_axioms;

        let c = k.code();
        match self.entries.get(&c) {
            Some(e) => Some(e.1),
            None => None,
        }
    }

    /// Stores `x` for `k`, in place of what was stored for it before.
    pub fn put(&mut self, k: K, x: X)
        requires
            old(self).wf(),
        ensures
            final(self).wf(),
            final(self)@ == old(self)@.insert(k, x),
    {
        broadcast use vstd::std_specs::hash::group_hash_axioms;

        let c = k.code();
        self.entries.insert(c, (k, x));
        proof {
            assert forall|k2: K| self@.contains_key(k2) == old(self)@.insert(k, x).contains_key(
                k2,
            ) by {
                K::lemma_code_injective(k2, k);
            }
            assert forall|k2: K| self@.contains_key(k2) implies self@[k2] == old(self)@.insert(
                k,
                x,
            )[k2] by {
                K::lemma_code_injective(k2, k);
            }
            assert(self@ =~= old(self)@.insert(k, x));
        }
    }

    /// Whether the map has no entry.
    pub fn is_empty(&self) -> (b: bool)
        requires
            self.wf(),
        ensures
            b == (self@ == Map::<K, X>::empty()),
    {
        broadcast use vstd::std_specs::hash::group_hash_axioms;

        let b = self.entries.is_empty();
        proof {
            if b {
                assert(self.entries@.dom() =~= Set::<u128>::empty());
                assert(self@ =~= Map::<K, X>::empty());
            } else {
                let c = self.entries@.dom().choose();
                assert(self.entries@.contains_key(c));
                assert(self@.contains_key(self.entries@[c].0));
            }
        }
        b
    }

    /// The entries of the map, each key once, in no particular order.
    pub fn items(&self) -> (v: Vec<(K, X)>)
        requires
            self.wf(),
        ensures
            lists_keys(v@, self@),
            forall|i: int| 0 <= i < v@.len() ==> self@[(#[trigger] v@[i]).0] == v@[i].1,
            v@.len() == self@.dom().len(),
    {
        let raw = entries(&self.entries);
        let mut v: Vec<(K, X)> = Vec::new();
        let n = raw.len();
        let mut i: usize = 0;
        while i < n
            invariant
                i <= n,
                n == raw@.len(),
                v@.len() == i,
                forall|j: int| 0 <= j < i ==> (#[trigger] v@[j]) == raw@[j].1,
            decreases n - i,
        {
            v.push(raw[i].1);
            i = i + 1;
        }
        proof {
            assert forall|j: int| 0 <= j < v@.len() implies self@.contains_key((#[trigger] v@[j]).0)
                && self@[v@[j].0] == v@[j].1 by {
                assert(self.entries@.contains_key(raw@[j].0));
            }
            assert forall|a: int, b: int| 0 <= a < b < v@.len() implies (#[trigger] v@[a]).0 != (
            #[trigger] v@[b]).0 by {
                assert(self.entries@.contains_key(raw@[a].0));
                assert(self.entries@.contains_key(raw@[b].0));
            }
            assert forall|k: K| #[trigger] self@.contains_key(k) implies exists|j: int|
                0 <= j < v@.len() && (#[trigger] v@[j]).0 == k by {
                let c = k.code_of();
                assert(self.entries@.contains_key(c));
                let j = choose|j: int| 0 <= j < raw@.len() && (#[trigger] raw@[j]).0 == c;
                K::lemma_code_injective(v@[j].0, k);
            }
            self.lemma_finite();
            lemma_lists_len(v@, self@);
        }
        v
    }
}

} // verus!
