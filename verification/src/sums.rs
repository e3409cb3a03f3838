//! Sums over finite maps, and sums of the groups into which a map's keys fall.

use vstd::prelude::*;
use crate::speed::Rate;

verus! {

/// The sum of all values of a finite map.
pub open spec fn bit_sum<K>(m: Map<K, nat>) -> nat {
    m.dom().fold(0nat, |acc: nat, k: K| acc + m[k])
}

/// The componentwise sum of all values of a finite map of rates.
pub open spec fn rate_sum<K>(m: Map<K, Rate>) -> Rate {
    Rate {
        input: bit_sum(m.map_values(|r: Rate| r.input)),
        output: bit_sum(m.map_values(|r: Rate| r.output)),
    }
}

/// The entries of `m` whose key falls into group `g`.
pub open spec fn members<K, G>(m: Map<K, Rate>, group: spec_fn(K) -> Option<G>, g: G) -> Map<
    K,
    Rate,
> {
    m.restrict(Set::new(|k: K| group(k) == Some(g)))
}

/// One entry for each group that a key of `m` falls into, holding the sum of
/// that group's values. Keys whose group is `None` are left out.
pub open spec fn grouped<K, G>(m: Map<K, Rate>, group: spec_fn(K) -> Option<G>) -> Map<G, Rate> {
    Map::new(
        |g: G| exists|k: K| m.contains_key(k) && #[trigger] group(k) == Some(g),
        |g: G| rate_sum(members(m, group, g)),
    )
}

/// `m` with `bits` added to the entry of `k`, which starts at `bits` when absent.
pub open spec fn credit<K>(m: Map<K, nat>, k: K, bits: nat) -> Map<K, nat> {
    m.insert(
        k,
        if m.contains_key(k) {
            m[k] + bits
        } else {
            bits
        },
    )
}

/// `gm` with `r` added to the entry of `g`, which starts at `r` when absent.
pub open spec fn accumulate<G>(gm: Map<G, Rate>, g: G, r: Rate) -> Map<G, Rate> {
    gm.insert(
        g,
        if gm.contains_key(g) {
            gm[g].plus(r)
        } else {
            r
        },
    )
}

/// A part of a finite map is finite.
pub proof fn lemma_restrict_finite<K, V>(m: Map<K, V>, s: Set<K>)
    requires
        m.dom().finite(),
    ensures
        m.restrict(s).dom().finite(),
{
    assert(m.restrict(s).dom() =~= m.dom().intersect(s));
}

proof fn lemma_fold_agree<K>(s: Set<K>, f: spec_fn(nat, K) -> nat, g: spec_fn(nat, K) -> nat)
    requires
        s.finite(),
        vstd::set::fold::is_fun_commutative(f),
        vstd::set::fold::is_fun_commutative(g),
        forall|acc: nat, k: K| s.contains(k) ==> #[trigger] f(acc, k) == g(acc, k),
    ensures
        s.fold(0nat, f) == s.fold(0nat, g),
    decreases s.len(),
{
    if s.len() == 0 {
        assert(s =~= Set::<K>::empty());
        vstd::set::fold::lemma_fold_empty(0nat, f);
        vstd::set::fold::lemma_fold_empty(0nat, g);
    } else {
        let a = s.choose();
        let rest = s.remove(a);
        assert(rest.insert(a) =~= s);
        lemma_fold_agree(rest, f, g);
        vstd::set::fold::lemma_fold_insert(rest, 0nat, f, a);
        vstd::set::fold::lemma_fold_insert(rest, 0nat, g, a);
    }
}

pub proof fn lemma_bit_sum_empty<K>()
    ensures
        bit_sum(Map::<K, nat>::empty()) == 0,
{
    let m = Map::<K, nat>::empty();
    assert(m.dom() =~= Set::<K>::empty());
    vstd::set::fold::lemma_fold_empty(0nat, |acc: nat, k: K| acc + m[k]);
}

/// A new key adds its value to the sum.
pub proof fn lemma_bit_sum_insert<K>(m: Map<K, nat>, k: K, v: nat)
    requires
        m.dom().finite(),
        !m.contains_key(k),
    ensures
        bit_sum(m.insert(k, v)) == bit_sum(m) + v,
{
    let m2 = m.insert(k, v);
    let f = |acc: nat, x: K| acc + m[x];
    let f2 = |acc: nat, x: K| acc + m2[x];
    assert(m2.dom() =~= m.dom().insert(k));
    assert(vstd::set::fold::is_fun_commutative(f));
    assert(vstd::set::fold::is_fun_commutative(f2));
    vstd::set::fold::lemma_fold_insert(m.dom(), 0nat, f2, k);
    lemma_fold_agree(m.dom(), f2, f);
}

/// Taking a key out takes its value from the sum.
pub proof fn lemma_bit_sum_remove<K>(m: Map<K, nat>, k: K)
    requires
        m.dom().finite(),
        m.contains_key(k),
    ensures
        bit_sum(m) == bit_sum(m.remove(k)) + m[k],
{
    assert(m.remove(k).insert(k, m[k]) =~= m);
    lemma_bit_sum_insert(m.remove(k), k, m[k]);
}

/// Adding to one entry, or starting it, adds as much to the sum.
pub proof fn lemma_bit_sum_credit<K>(m: Map<K, nat>, k: K, bits: nat)
    requires
        m.dom().finite(),
    ensures
        bit_sum(credit(m, k, bits)) == bit_sum(m) + bits,
{
    if m.contains_key(k) {
        lemma_bit_sum_remove(m, k);
        assert(credit(m, k, bits) =~= m.remove(k).insert(k, m[k] + bits));
        lemma_bit_sum_insert(m.remove(k), k, m[k] + bits);
    } else {
        lemma_bit_sum_insert(m, k, bits);
    }
}

/// Part of a map sums to no more than the whole.
pub proof fn lemma_bit_sum_restrict<K>(m: Map<K, nat>, s: Set<K>)
    requires
        m.dom().finite(),
    ensures
        bit_sum(m.restrict(s)) <= bit_sum(m),
    decreases m.dom().len(),
{
    if m.dom().len() == 0 {
        assert(m.dom() =~= Set::<K>::empty());
        assert(m.restrict(s) =~= m);
    } else {
        let a = m.dom().choose();
        let rest = m.remove(a);
        lemma_bit_sum_remove(m, a);
        lemma_bit_sum_restrict(rest, s);
        if s.contains(a) {
            assert(m.restrict(s).remove(a) =~= rest.restrict(s));
            lemma_restrict_finite(m, s);
            lemma_bit_sum_remove(m.restrict(s), a);
        } else {
            assert(m.restrict(s) =~= rest.restrict(s));
        }
    }
}

pub proof fn lemma_rate_sum_empty<K>()
    ensures
        rate_sum(Map::<K, Rate>::empty()) == Rate::zero(),
{
    let m = Map::<K, Rate>::empty();
    assert(m.map_values(|r: Rate| r.input) =~= Map::<K, nat>::empty());
    assert(m.map_values(|r: Rate| r.output) =~= Map::<K, nat>::empty());
    lemma_bit_sum_empty::<K>();
}

/// A new key adds its rate to the sum.
pub proof fn lemma_rate_sum_insert<K>(m: Map<K, Rate>, k: K, r: Rate)
    requires
        m.dom().finite(),
        !m.contains_key(k),
    ensures
        rate_sum(m.insert(k, r)) == rate_sum(m).plus(r),
{
    let fi = |r: Rate| r.input;
    let fo = |r: Rate| r.output;
    assert(m.map_values(fi).dom() =~= m.dom());
    assert(m.map_values(fo).dom() =~= m.dom());
    assert(m.insert(k, r).map_values(fi) =~= m.map_values(fi).insert(k, r.input));
    assert(m.insert(k, r).map_values(fo) =~= m.map_values(fo).insert(k, r.output));
    lemma_bit_sum_insert(m.map_values(fi), k, r.input);
    lemma_bit_sum_insert(m.map_values(fo), k, r.output);
}

/// Taking a key out takes its rate from the sum.
pub proof fn lemma_rate_sum_remove<K>(m: Map<K, Rate>, k: K)
    requires
        m.dom().finite(),
        m.contains_key(k),
    ensures
        rate_sum(m) == rate_sum(m.remove(k)).plus(m[k]),
{
    assert(m.remove(k).insert(k, m[k]) =~= m);
    lemma_rate_sum_insert(m.remove(k), k, m[k]);
}

/// Adding to one entry, or starting it, adds as much to the sum.
pub proof fn lemma_rate_sum_accumulate<G>(gm: Map<G, Rate>, g: G, r: Rate)
    requires
        gm.dom().finite(),
    ensures
        rate_sum(accumulate(gm, g, r)) == rate_sum(gm).plus(r),
{
    if gm.contains_key(g) {
        lemma_rate_sum_remove(gm, g);
        assert(accumulate(gm, g, r) =~= gm.remove(g).insert(g, gm[g].plus(r)));
        lemma_rate_sum_insert(gm.remove(g), g, gm[g].plus(r));
    } else {
        lemma_rate_sum_insert(gm, g, r);
    }
}

/// Part of a map of rates sums to no more than the whole, in both components.
pub proof fn lemma_rate_sum_restrict<K>(m: Map<K, Rate>, s: Set<K>)
    requires
        m.dom().finite(),
    ensures
        rate_sum(m.restrict(s)).input <= rate_sum(m).input,
        rate_sum(m.restrict(s)).output <= rate_sum(m).output,
{
    let fi = |r: Rate| r.input;
    let fo = |r: Rate| r.output;
    assert(m.map_values(fi).dom() =~= m.dom());
    assert(m.map_values(fo).dom() =~= m.dom());
    assert(m.restrict(s).map_values(fi) =~= m.map_values(fi).restrict(s));
    assert(m.restrict(s).map_values(fo) =~= m.map_values(fo).restrict(s));
    lemma_bit_sum_restrict(m.map_values(fi), s);
    lemma_bit_sum_restrict(m.map_values(fo), s);
}

/// A new key joins its group, and leaves every other group as it was.
pub proof fn lemma_grouped_insert<K, G>(
    m: Map<K, Rate>,
    group: spec_fn(K) -> Option<G>,
    k: K,
    r: Rate,
)
    requires
        m.dom().finite(),
        !m.contains_key(k),
    ensures
        grouped(m.insert(k, r), group) == match group(k) {
            Some(g) => accumulate(grouped(m, group), g, r),
            None => grouped(m, group),
        },
{
    let m2 = m.insert(k, r);
    let before = grouped(m, group);
    let after = grouped(m2, group);
    let want = match group(k) {
        Some(g) => accumulate(before, g, r),
        None => before,
    };
    assert forall|g: G| after.contains_key(g) == want.contains_key(g) by {
        if after.contains_key(g) {
            let w = choose|w: K| m2.contains_key(w) && #[trigger] group(w) == Some(g);
            if w != k {
                assert(m.contains_key(w) && group(w) == Some(g));
            }
        }
        if want.contains_key(g) {
            if before.contains_key(g) {
                let w = choose|w: K| m.contains_key(w) && #[trigger] group(w) == Some(g);
                assert(m2.contains_key(w) && group(w) == Some(g));
            } else {
                assert(m2.contains_key(k) && group(k) == Some(g));
            }
        }
    }
    assert forall|g: G| after.contains_key(g) implies after[g] == want[g] by {
        if group(k) == Some(g) {
            assert(members(m2, group, g) =~= members(m, group, g).insert(k, r));
            lemma_restrict_finite(m, Set::new(|x: K| group(x) == Some(g)));
            lemma_rate_sum_insert(members(m, group, g), k, r);
            if !before.contains_key(g) {
                assert forall|w: K| !members(m, group, g).contains_key(w) by {
                    if members(m, group, g).contains_key(w) {
                        assert(m.contains_key(w) && group(w) == Some(g));
                    }
                }
                assert(members(m, group, g) =~= Map::<K, Rate>::empty());
                lemma_rate_sum_empty::<K>();
            }
        } else {
            assert(members(m2, group, g) =~= members(m, group, g));
        }
    }
    assert(after =~= want);
}

/// Grouping an empty map gives an empty map.
pub proof fn lemma_grouped_empty<K, G>(group: spec_fn(K) -> Option<G>)
    ensures
        grouped(Map::<K, Rate>::empty(), group) == Map::<G, Rate>::empty(),
{
    assert(grouped(Map::<K, Rate>::empty(), group) =~= Map::<G, Rate>::empty());
}

} // verus!
