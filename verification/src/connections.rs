//! The list of connections: one line of text for each endpoint pair, in
//! ascending order of the pairs.

use vstd::prelude::*;
use vstd::string::StringExecFns;
use crate::maps::Coded;
use crate::speed::{Rate, Speed, speed_text};
use crate::tally::SpeedMap;
use crate::traffic::IpPair;

verus! {

/// The pairs are in strictly ascending order: by source address, then by
/// destination address, then a pair that is not local before a local one.
pub open spec fn ascending(ps: Seq<IpPair>) -> bool {
    forall|i: int, j: int|
        0 <= i < j < ps.len() ==> (#[trigger] ps[i]).code_of() < (#[trigger] ps[j]).code_of()
}

/// `ps` holds exactly the pairs of `s`, in ascending order.
pub open spec fn orders(ps: Seq<IpPair>, s: Set<IpPair>) -> bool {
    &&& ascending(ps)
    &&& forall|p: IpPair| s.contains(p) <==> ps.contains(p)
}

/// The pairs of `s` in ascending order.
pub open spec fn in_order(s: Set<IpPair>) -> Seq<IpPair> {
    choose|ps: Seq<IpPair>| orders(ps, s)
}

/// A set of pairs has at most one ascending order.
pub proof fn lemma_order_unique(a: Seq<IpPair>, b: Seq<IpPair>, s: Set<IpPair>)
    requires
        orders(a, s),
        orders(b, s),
    ensures
        a == b,
    decreases a.len(),
{
    if a.len() == 0 {
        if b.len() > 0 {
            assert(b.contains(b[0]));
            assert(a.contains(b[0]));
        }
        assert(a =~= b);
    } else {
        let la = a.last();
        assert(a.contains(la));
        assert(b.contains(la));
        let lb = b.last();
        assert(b.contains(lb));
        assert(a.contains(lb));
        let ja = choose|j: int| 0 <= j < a.len() && a[j] == lb;
        let jb = choose|j: int| 0 <= j < b.len() && b[j] == la;
        assert(a[ja] == lb && b[jb] == la);
        assert(la.code_of() == lb.code_of());
        IpPair::lemma_code_injective(la, lb);
        let s2 = s.remove(la);
        let a2 = a.drop_last();
        let b2 = b.drop_last();
        assert forall|p: IpPair| s2.contains(p) <==> a2.contains(p) by {
            if s2.contains(p) {
                let i = choose|i: int| 0 <= i < a.len() && a[i] == p;
                assert(a[i] == p);
                assert(a2[i] == p);
            }
            if a2.contains(p) {
                let i = choose|i: int| 0 <= i < a2.len() && a2[i] == p;
                assert(a[i] == p);
                assert(a.contains(p));
                assert(a[i].code_of() < a[a.len() - 1].code_of());
            }
        }
        assert forall|p: IpPair| s2.contains(p) <==> b2.contains(p) by {
            if s2.contains(p) {
                let i = choose|i: int| 0 <= i < b.len() && b[i] == p;
                assert(b[i] == p);
                assert(b2[i] == p);
            }
            if b2.contains(p) {
                let i = choose|i: int| 0 <= i < b2.len() && b2[i] == p;
                assert(b[i] == p);
                assert(b.contains(p));
                assert(b[i].code_of() < b[b.len() - 1].code_of());
            }
        }
        assert(ascending(a2)) by {
            assert forall|i: int, j: int| 0 <= i < j < a2.len() implies (#[trigger] a2[i]).code_of()
                < (#[trigger] a2[j]).code_of() by {
                assert(a[i].code_of() < a[j].code_of());
            }
        }
        assert(ascending(b2)) by {
            assert forall|i: int, j: int| 0 <= i < j < b2.len() implies (#[trigger] b2[i]).code_of()
                < (#[trigger] b2[j]).code_of() by {
                assert(b[i].code_of() < b[j].code_of());
            }
        }
        lemma_order_unique(a2, b2, s2);
        assert(a =~= a2.push(la));
        assert(b =~= b2.push(lb));
    }
}

/// How many pairs of `ps` come before `p`.
pub open spec fn rank(ps: Seq<IpPair>, p: IpPair) -> int
    decreases ps.len(),
{
    if ps.len() == 0 {
        0
    } else if ps.last().code_of() < p.code_of() {
        rank(ps.drop_last(), p) + 1
    } else {
        rank(ps.drop_last(), p)
    }
}

/// In an ascending sequence the pairs that come before `p` stand first.
proof fn lemma_rank(ps: Seq<IpPair>, p: IpPair)
    requires
        ascending(ps),
    ensures
        0 <= rank(ps, p) <= ps.len(),
        forall|i: int| 0 <= i < rank(ps, p) ==> (#[trigger] ps[i]).code_of() < p.code_of(),
        forall|i: int| rank(ps, p) <= i < ps.len() ==> (#[trigger] ps[i]).code_of() >= p.code_of(),
    decreases ps.len(),
{
    if ps.len() > 0 {
        let head = ps.drop_last();
        assert forall|i: int, j: int| 0 <= i < j < head.len() implies (#[trigger] head[i]).code_of()
            < (#[trigger] head[j]).code_of() by {
            assert(ps[i].code_of() < ps[j].code_of());
        }
        lemma_rank(head, p);
        if ps.last().code_of() < p.code_of() {
            if rank(head, p) < head.len() {
                let i = rank(head, p);
                assert(head[i].code_of() >= p.code_of());
                assert(ps[i].code_of() < ps[ps.len() - 1].code_of());
            }
            assert forall|i: int| 0 <= i < rank(ps, p) implies (#[trigger] ps[i]).code_of()
                < p.code_of() by {
                if i < head.len() {
                    assert(head[i].code_of() < p.code_of());
                }
            }
        } else {
            assert forall|i: int| 0 <= i < rank(ps, p) implies (#[trigger] ps[i]).code_of()
                < p.code_of() by {
                assert(head[i].code_of() < p.code_of());
            }
            assert forall|i: int| rank(ps, p) <= i < ps.len() implies (#[trigger] ps[i]).code_of()
                >= p.code_of() by {
                if i < head.len() {
                    assert(head[i].code_of() >= p.code_of());
                }
            }
        }
    }
}

/// Every finite set of pairs has an ascending order.
proof fn lemma_order_exists(s: Set<IpPair>) -> (ps: Seq<IpPair>)
    requires
        s.finite(),
    ensures
        orders(ps, s),
    decreases s.len(),
{
    if s.is_empty() {
        let ps = Seq::<IpPair>::empty();
        ps
    } else {
        let x = s.choose();
        let rest = s.remove(x);
        let sorted = lemma_order_exists(rest);
        let k = rank(sorted, x);
        lemma_rank(sorted, x);
        let ps = sorted.insert(k, x);
        assert forall|i: int| 0 <= i < ps.len() implies #[trigger] ps[i] == if i < k {
            sorted[i]
        } else if i == k {
            x
        } else {
            sorted[i - 1]
        } by {}
        assert forall|i: int| k <= i < sorted.len() implies (#[trigger] sorted[i]).code_of()
            > x.code_of() by {
            assert(sorted.contains(sorted[i]));
            assert(rest.contains(sorted[i]));
            IpPair::lemma_code_injective(sorted[i], x);
        }
        assert forall|i: int, j: int| 0 <= i < j < ps.len() implies (#[trigger] ps[i]).code_of() < (
        #[trigger] ps[j]).code_of() by {
            if j < k {
                assert(sorted[i].code_of() < sorted[j].code_of());
            } else if j == k {
                assert(sorted[i].code_of() < x.code_of());
            } else if i < k {
                assert(sorted[i].code_of() < x.code_of());
                assert(sorted[j - 1].code_of() > x.code_of());
            } else if i == k {
                assert(sorted[j - 1].code_of() > x.code_of());
            } else {
                assert(sorted[i - 1].code_of() < sorted[j - 1].code_of());
            }
        }
        assert forall|p: IpPair| s.contains(p) <==> ps.contains(p) by {
            if s.contains(p) {
                if p == x {
                    assert(ps[k] == p);
                } else {
                    assert(rest.contains(p));
                    assert(sorted.contains(p));
                    let i = choose|i: int| 0 <= i < sorted.len() && sorted[i] == p;
                    if i < k {
                        assert(ps[i] == p);
                    } else {
                        assert(ps[i + 1] == p);
                    }
                }
            }
            if ps.contains(p) {
                let i = choose|i: int| 0 <= i < ps.len() && ps[i] == p;
                if i < k {
                    assert(sorted.contains(sorted[i]));
                } else if i > k {
                    assert(sorted.contains(sorted[i - 1]));
                }
            }
        }
        ps
    }
}

/// The pairs of a finite set in order are just these pairs, in ascending
/// order.
pub proof fn lemma_in_order(s: Set<IpPair>)
    requires
        s.finite(),
    ensures
        orders(in_order(s), s),
        in_order(s).len() == s.len(),
{
    let ps = lemma_order_exists(s);
    let chosen = in_order(s);
    assert forall|i: int, j: int| 0 <= i < j < chosen.len() implies chosen[i] != chosen[j] by {
        assert(chosen[i].code_of() < chosen[j].code_of());
    }
    chosen.unique_seq_to_set();
    assert(chosen.to_set() =~= s);
}

/// The sign between the endpoints of a connection: which of the two rates
/// are not zero.
pub open spec fn arrow(r: Rate) -> Seq<char> {
    if r.input != 0 && r.output != 0 {
        seq!['<', '-', '>']
    } else if r.input != 0 {
        seq!['-', '-', '>']
    } else if r.output != 0 {
        seq!['<', '-', '-']
    } else {
        seq!['-', '-', '-']
    }
}

/// The line of a connection: source, sign, destination, a tab between
/// blanks, and the speed in brackets.
pub open spec fn connection_text(p: IpPair, r: Rate) -> Seq<char> {
    p.src_ip.text().push(' ') + arrow(r).push(' ') + p.dst_ip.text() + seq![' ', '\t', ' ', '(']
        + speed_text(r).push(')')
}

/// The line of one connection.
pub fn connection_line(p: &IpPair, s: &Speed) -> (line: String)
    ensures
        line@ == connection_text(*p, s@),
{
    proof {
        reveal_strlit(" ");
        reveal_strlit("<->");
        reveal_strlit("-->");
        reveal_strlit("<--");
        reveal_strlit("---");
        reveal_strlit(" \t (");
        reveal_strlit(")");
    }
    let sign = if s.input != 0 && s.output != 0 {
        "<->"
    } else if s.input != 0 {
        "-->"
    } else if s.output != 0 {
        "<--"
    } else {
        "---"
    };
    assert(sign@ =~= arrow(s@));
    let mut out = p.src_ip.to_string();
    out.append(" ");
    out.append(sign);
    out.append(" ");
    let dst = p.dst_ip.to_string();
    out.append(dst.as_str());
    out.append(" \t (");
    let speed = s.to_string();
    out.append(speed.as_str());
    out.append(")");
    assert(out@ =~= connection_text(*p, s@));
    out
}

/// `slice::sort_by_key`, keyed by the first component: afterwards the rows
/// are the same rows in another order, and their keys ascend.
#[verifier::external_body]
fn sort_rows(rows: &mut Vec<(u128, IpPair, Speed)>)
    ensures
        final(rows)@.to_multiset() == old(rows)@.to_multiset(),
        forall|i: int, j: int|
            0 <= i < j < final(rows)@.len() ==> (#[trigger] final(rows)@[i]).0 <= (
            #[trigger] final(rows)@[j]).0,
{
    rows.sort_by_key(|r| r.0);
}

/// Each row is built from one entry of `m`, and each entry has its row once.
pub open spec fn rows_of(rows: Seq<(u128, IpPair, Speed)>, m: Map<IpPair, Rate>) -> bool {
    &&& rows.no_duplicates()
    &&& forall|i: int|
        0 <= i < rows.len() ==> {
            &&& (#[trigger] rows[i]).0 == rows[i].1.code_of()
            &&& m.contains_key(rows[i].1)
            &&& m[rows[i].1] == rows[i].2@
        }
    &&& forall|i: int, j: int|
        0 <= i < j < rows.len() ==> (#[trigger] rows[i]).1 != (#[trigger] rows[j]).1
    &&& forall|p: IpPair| #[trigger]
        m.contains_key(p) ==> exists|i: int| 0 <= i < rows.len() && (#[trigger] rows[i]).1 == p
}

proof fn lemma_same_members<T>(a: Seq<T>, b: Seq<T>, x: T)
    requires
        a.to_multiset() == b.to_multiset(),
    ensures
        a.contains(x) == b.contains(x),
        a.len() == b.len(),
{
    vstd::seq_lib::to_multiset_contains(a, x);
    vstd::seq_lib::to_multiset_contains(b, x);
    vstd::seq_lib::to_multiset_len(a);
    vstd::seq_lib::to_multiset_len(b);
}

proof fn lemma_sorted_rows(
    before: Seq<(u128, IpPair, Speed)>,
    after: Seq<(u128, IpPair, Speed)>,
    m: Map<IpPair, Rate>,
)
    requires
        rows_of(before, m),
        after.to_multiset() == before.to_multiset(),
        forall|i: int, j: int|
            0 <= i < j < after.len() ==> (#[trigger] after[i]).0 <= (#[trigger] after[j]).0,
    ensures
        rows_of(after, m),
        after.len() == before.len(),
        orders(after.map_values(|r: (u128, IpPair, Speed)| r.1), m.dom()),
{
    vstd::seq_lib::to_multiset_len(before);
    vstd::seq_lib::to_multiset_len(after);
    before.lemma_multiset_has_no_duplicates();
    after.lemma_multiset_has_no_duplicates_conv();
    assert forall|i: int| 0 <= i < after.len() implies {
        &&& (#[trigger] after[i]).0 == after[i].1.code_of()
        &&& m.contains_key(after[i].1)
        &&& m[after[i].1] == after[i].2@
    } by {
        assert(after.contains(after[i]));
        lemma_same_members(before, after, after[i]);
        assert(before.contains(after[i]));
        let j = choose|j: int| 0 <= j < before.len() && before[j] == after[i];
        assert(before[j] == after[i]);
    }
    assert forall|i: int, j: int| 0 <= i < j < after.len() implies (#[trigger] after[i]).1 != (
    #[trigger] after[j]).1 by {
        if after[i].1 == after[j].1 {
            assert(after.contains(after[i]));
            lemma_same_members(before, after, after[i]);
            assert(before.contains(after[i]));
            assert(after.contains(after[j]));
            lemma_same_members(before, after, after[j]);
            assert(before.contains(after[j]));
            let a = choose|a: int| 0 <= a < before.len() && before[a] == after[i];
            let b = choose|b: int| 0 <= b < before.len() && before[b] == after[j];
            assert(before[a] == after[i] && before[b] == after[j]);
            if a < b {
                assert(before[a].1 != before[b].1);
            } else if b < a {
                assert(before[b].1 != before[a].1);
            } else {
                assert(after[i] == after[j]);
            }
        }
    }
    assert forall|p: IpPair| #[trigger] m.contains_key(p) implies exists|i: int|
        0 <= i < after.len() && (#[trigger] after[i]).1 == p by {
        let j = choose|j: int| 0 <= j < before.len() && (#[trigger] before[j]).1 == p;
        assert(before.contains(before[j]));
        lemma_same_members(before, after, before[j]);
        assert(after.contains(before[j]));
        let i = choose|i: int| 0 <= i < after.len() && after[i] == before[j];
        assert(after[i].1 == p);
    }
    let ps = after.map_values(|r: (u128, IpPair, Speed)| r.1);
    assert forall|i: int, j: int| 0 <= i < j < ps.len() implies (#[trigger] ps[i]).code_of() < (
    #[trigger] ps[j]).code_of() by {
        assert(after[i].0 <= after[j].0);
        assert(after[i].1 != after[j].1);
        IpPair::lemma_code_injective(after[i].1, after[j].1);
    }
    assert forall|p: IpPair| m.dom().contains(p) <==> ps.contains(p) by {
        if m.dom().contains(p) {
            assert(m.contains_key(p));
            let i = choose|i: int| 0 <= i < after.len() && (#[trigger] after[i]).1 == p;
            assert(ps[i] == p);
        }
        if ps.contains(p) {
            let i = choose|i: int| 0 <= i < ps.len() && ps[i] == p;
            assert(after[i].1 == p);
        }
    }
}

/// The lines of the connections of `m`, in ascending order of the pairs.
pub open spec fn connection_lines(m: Map<IpPair, Rate>) -> Seq<Seq<char>> {
    in_order(m.dom()).map_values(|p: IpPair| connection_text(p, m[p]))
}

/// One line for each pair of `speeds`, in ascending order of the pairs.
pub fn connection_list(speeds: &SpeedMap<IpPair>) -> (lines: Vec<String>)
    requires
        speeds.wf(),
    ensures
        lines@.map_values(|l: String| l@) == connection_lines(speeds@),
        lines@.len() == speeds@.dom().len(),
        orders(in_order(speeds@.dom()), speeds@.dom()),
{
    let entries = speeds.items();
    let mut rows: Vec<(u128, IpPair, Speed)> = Vec::new();
    let n = entries.len();
    let mut i: usize = 0;
    while i < n
        invariant
            i <= n,
            n == entries@.len(),
            rows@.len() == i,
            forall|j: int|
                0 <= j < i ==> (#[trigger] rows@[j]) == (
                    entries@[j].0.code_of(),
                    entries@[j].0,
                    entries@[j].1,
                ),
        decreases n - i,
    {
        let (p, s) = entries[i];
        rows.push((p.code(), p, s));
        i = i + 1;
    }
    proof {
        assert forall|a: int, b: int| 0 <= a < b < rows@.len() implies rows@[a] != rows@[b] by {
            assert(entries@[a].0 != entries@[b].0);
        }
        assert forall|p: IpPair| #[trigger] speeds@.contains_key(p) implies exists|i: int|
            0 <= i < rows@.len() && (#[trigger] rows@[i]).1 == p by {
            let j = choose|j: int| 0 <= j < entries@.len() && (#[trigger] entries@[j]).0 == p;
            assert(rows@[j].1 == p);
        }
        assert forall|a: int, b: int| 0 <= a < b < rows@.len() implies (#[trigger] rows@[a]).1
            != (#[trigger] rows@[b]).1 by {
            assert(entries@[a].0 != entries@[b].0);
        }
        assert(rows_of(rows@, speeds@));
    }
    let ghost unsorted = rows@;
    sort_rows(&mut rows);
    proof {
        lemma_sorted_rows(unsorted, rows@, speeds@);
        let ps = rows@.map_values(|r: (u128, IpPair, Speed)| r.1);
        lemma_order_unique(ps, in_order(speeds@.dom()), speeds@.dom());
    }
    let ghost order = in_order(speeds@.dom());
    let mut lines: Vec<String> = Vec::new();
    let mut j: usize = 0;
    while j < n
        invariant
            j <= n,
            n == rows@.len(),
            rows_of(rows@, speeds@),
            order == rows@.map_values(|r: (u128, IpPair, Speed)| r.1),
            lines@.len() == j,
            forall|x: int|
                0 <= x < j ==> (#[trigger] lines@[x])@ == connection_text(
                    order[x],
                    speeds@[order[x]],
                ),
        decreases n - j,
    {
        let line = connection_line(&rows[j].1, &rows[j].2);
        lines.push(line);
        j = j + 1;
    }
    proof {
        assert(lines@.map_values(|l: String| l@) =~= connection_lines(speeds@));
        speeds.lemma_bounded();
        lemma_in_order(speeds@.dom());
    }
    lines
}

} // verus!
