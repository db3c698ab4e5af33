//! Deduplication and dominance filtering of parallel edges: a canonical
//! total-order sort, removal of exact duplicates, and a local Pareto
//! dominance pass over adjacent edges sharing the same endpoints.

use vstd::prelude::*;

use vstd::relations::sorted_by;
use vstd::relations::total_ordering;

use crate::pbf::EdgeInfo;

verus! {

/// The canonical total order on edges: by source, then destination, then
/// unsuitability, then elevation gain, then length, each ascending.
pub open spec fn edge_key_le(a: EdgeInfo, b: EdgeInfo) -> bool {
    if a.source != b.source {
        a.source < b.source
    } else if a.dest != b.dest {
        a.dest < b.dest
    } else if a.unsuitability != b.unsuitability {
        a.unsuitability < b.unsuitability
    } else if a.height != b.height {
        a.height < b.height
    } else {
        a.length <= b.length
    }
}

/// The canonical order as a relation value, shared by every contract that
/// speaks about sorting.
pub open spec fn edge_order() -> spec_fn(EdgeInfo, EdgeInfo) -> bool {
    |a: EdgeInfo, b: EdgeInfo| edge_key_le(a, b)
}

/// Whether two edges connect the same ordered endpoint pair.
pub open spec fn same_endpoints(a: EdgeInfo, b: EdgeInfo) -> bool {
    a.source == b.source && a.dest == b.dest
}

/// Pareto dominance among parallel edges: `a` dominates `b` when they share
/// endpoints and `a` is no worse in length, elevation gain and
/// unsuitability.
pub open spec fn dominates(a: EdgeInfo, b: EdgeInfo) -> bool {
    same_endpoints(a, b) && a.length <= b.length && a.height <= b.height && a.unsuitability
        <= b.unsuitability
}

/// Whether `s` is sorted by the canonical edge order.
pub open spec fn spec_sorted(s: Seq<EdgeInfo>) -> bool {
    forall|i: int, j: int| 0 <= i < j < s.len() ==> #[trigger] edge_key_le(s[i], s[j])
}

/// The canonical sorted arrangement of `s`.
pub open spec fn spec_sorted_of(s: Seq<EdgeInfo>) -> Seq<EdgeInfo> {
    s.sort_by(edge_order())
}

/// Being sorted by the order relation and by its defining comparison are
/// the same thing.
proof fn lemma_spec_sorted_is_sorted_by(s: Seq<EdgeInfo>)
    ensures
        spec_sorted(s) <==> sorted_by(s, edge_order()),
{
    let r = edge_order();
    if spec_sorted(s) {
        assert forall|i: int, j: int| 0 <= i < j < s.len() implies #[trigger] r(s[i], s[j]) by {
            assert(edge_key_le(s[i], s[j]));
        }
    }
    if sorted_by(s, r) {
        assert forall|i: int, j: int| 0 <= i < j < s.len() implies #[trigger] edge_key_le(
            s[i],
            s[j],
        ) by {
            assert(r(s[i], s[j]));
        }
    }
}

/// The canonical edge order is a total order.
pub proof fn lemma_edge_order_total()
    ensures
        total_ordering(edge_order()),
{
    let r = edge_order();
    assert forall|x: EdgeInfo| #[trigger] r(x, x) by {}
    assert forall|x: EdgeInfo, y: EdgeInfo| #[trigger] r(x, y) && #[trigger] r(y, x) implies x
        == y by {}
    assert forall|x: EdgeInfo, y: EdgeInfo, z: EdgeInfo|
        #[trigger] r(x, y) && #[trigger] r(y, z) implies r(x, z) by {}
    assert forall|x: EdgeInfo, y: EdgeInfo| #[trigger] r(x, y) || #[trigger] r(y, x) by {}
}

/// The first `i` elements of `s` with consecutive exact duplicates removed.
pub open spec fn spec_dedup_prefix(s: Seq<EdgeInfo>, i: int) -> Seq<EdgeInfo>
    decreases i,
{
    if i <= 0 {
        Seq::empty()
    } else {
        spec_dedup_prefix(s, i - 1) + if i - 1 == 0 || s[i - 1] != s[i - 2] {
            seq![s[i - 1]]
        } else {
            Seq::empty()
        }
    }
}

/// `s` with consecutive exact duplicates removed, as `Vec::dedup` leaves it.
pub open spec fn spec_dedup(s: Seq<EdgeInfo>) -> Seq<EdgeInfo> {
    spec_dedup_prefix(s, s.len() as int)
}

/// The first `i` elements of `s` that survive the dominance pass: an edge
/// falls exactly when its immediate predecessor in `s` dominates it.
pub open spec fn spec_dominance_prefix(s: Seq<EdgeInfo>, i: int) -> Seq<EdgeInfo>
    decreases i,
{
    if i <= 0 {
        Seq::empty()
    } else {
        spec_dominance_prefix(s, i - 1) + if i - 1 == 0 || !dominates(s[i - 2], s[i - 1]) {
            seq![s[i - 1]]
        } else {
            Seq::empty()
        }
    }
}

/// The edges of `s` that survive the dominance pass.
pub open spec fn spec_dominance(s: Seq<EdgeInfo>) -> Seq<EdgeInfo> {
    spec_dominance_prefix(s, s.len() as int)
}

/// What the whole filter leaves of an edge set: the canonical sort, then
/// duplicate removal, then the dominance pass.
pub open spec fn spec_filtered(s: Seq<EdgeInfo>) -> Seq<EdgeInfo> {
    spec_dominance(spec_dedup(spec_sorted_of(s)))
}

/// Compares two edges by the canonical total order.
pub fn edge_le(a: &EdgeInfo, b: &EdgeInfo) -> (r: bool)
    ensures
        r == edge_key_le(*a, *b),
{
    if a.source != b.source {
        a.source < b.source
    } else if a.dest != b.dest {
        a.dest < b.dest
    } else if a.unsuitability != b.unsuitability {
        a.unsuitability < b.unsuitability
    } else if a.height != b.height {
        a.height < b.height
    } else {
        a.length <= b.length
    }
}

/// Decides Pareto dominance between two edges.
pub fn edge_dominates(a: &EdgeInfo, b: &EdgeInfo) -> (r: bool)
    ensures
        r == dominates(*a, *b),
{
    a.source == b.source && a.dest == b.dest && a.length <= b.length && a.height <= b.height
        && a.unsuitability <= b.unsuitability
}

/// Sorts the edges into the canonical arrangement.
pub fn sort_edges(edges: &mut Vec<EdgeInfo>)
    ensures
        final(edges)@ == spec_sorted_of(old(edges)@),
        spec_sorted(final(edges)@),
        final(edges)@.to_multiset() == old(edges)@.to_multiset(),
        final(edges)@.len() == old(edges)@.len(),
{
    broadcast use vstd::seq_lib::group_to_multiset_ensures;
    broadcast use vstd::multiset::group_multiset_axioms;

    let n = edges.len();
    if n >= 2 {
    for i in 1..n
        invariant
            n == edges@.len(),
            edges@.to_multiset() == old(edges)@.to_multiset(),
            forall|a: int, b: int| 0 <= a < b < i ==> edge_key_le(edges@[a], edges@[b]),
    {
        let mut j: usize = i;
        while j > 0 && !edge_le(&edges[j - 1], &edges[j])
            invariant
                0 <= j <= i < n,
                n == edges@.len(),
                edges@.to_multiset() == old(edges)@.to_multiset(),
                forall|a: int, b: int|
                    0 <= a < b <= i && b != j ==> edge_key_le(edges@[a], edges@[b]),
                forall|b: int| j < b <= i ==> edge_key_le(edges@[j as int], edges@[b]),
            decreases j,
        {
            let ghost before = edges@;
            let lower = edges[j - 1];
            let upper = edges[j];
            edges.set(j - 1, upper);
            edges.set(j, lower);
            proof {
                assert(before.contains(lower)) by {
                    assert(before[j - 1] == lower);
                }
                vstd::seq_lib::to_multiset_contains(before, lower);
                assert(before.to_multiset().count(lower) > 0);
                let mid = before.update(j - 1, upper);
                vstd::seq_lib::to_multiset_update(before, j - 1, upper);
                vstd::seq_lib::to_multiset_update(mid, j as int, lower);
                assert(edges@ == mid.update(j as int, lower));
                assert(mid[j as int] == upper);
                assert(edges@.to_multiset() =~= before.to_multiset());
            }
            j = j - 1;
        }
        proof {
            assert forall|a: int, b: int| 0 <= a < b <= i as int implies edge_key_le(
                edges@[a],
                edges@[b],
            ) by {
                if b == j as int {
                    if j > 0 {
                        assert(edge_key_le(edges@[j - 1], edges@[j as int]));
                        if a < j - 1 {
                            assert(edge_key_le(edges@[a], edges@[j - 1]));
                        }
                    }
                } else {
                    assert(edge_key_le(edges@[a], edges@[b]));
                }
            }
        }
    }
    }
    proof {
        assert(edges@.to_multiset().len() == edges@.len());
        assert(old(edges)@.to_multiset().len() == old(edges)@.len());
        lemma_edge_order_total();
        old(edges)@.lemma_sort_by_ensures(edge_order());
        assert(spec_sorted(edges@));
        lemma_spec_sorted_is_sorted_by(edges@);
        vstd::seq_lib::lemma_sorted_unique(edges@, spec_sorted_of(old(edges)@), edge_order());
        assert(edges@ == spec_sorted_of(old(edges)@));
    }
}

/// Removes consecutive exact duplicates; after the canonical sort this
/// removes every exact duplicate. Equality is the filtering-tuple equality
/// of all five fields.
pub fn dedup_edges(edges: &Vec<EdgeInfo>) -> (r: Vec<EdgeInfo>)
    ensures
        r@ == spec_dedup(edges@),
        r@.len() <= edges@.len(),
{
    let n = edges.len();
    let mut out: Vec<EdgeInfo> = Vec::new();
    for i in 0..n
        invariant
            n == edges@.len(),
            out@ == spec_dedup_prefix(edges@, i as int),
            out@.len() <= i,
    {
        if i == 0 || !(edges[i] == edges[i - 1]) {
            out.push(edges[i]);
        }
        proof {
            assert(out@ =~= spec_dedup_prefix(edges@, i + 1));
        }
    }
    out
}

/// The dominance pass: an edge is dropped exactly when the edge before it
/// shares its endpoints and dominates it.
pub fn dominance_filter(edges: &Vec<EdgeInfo>) -> (r: Vec<EdgeInfo>)
    ensures
        r@ == spec_dominance(edges@),
        r@.len() <= edges@.len(),
{
    let n = edges.len();
    let mut out: Vec<EdgeInfo> = Vec::new();
    for i in 0..n
        invariant
            n == edges@.len(),
            out@ == spec_dominance_prefix(edges@, i as int),
            out@.len() <= i,
    {
        if i == 0 || !edge_dominates(&edges[i - 1], &edges[i]) {
            out.push(edges[i]);
        }
        proof {
            assert(out@ =~= spec_dominance_prefix(edges@, i + 1));
        }
    }
    out
}

proof fn lemma_dedup_prefix_props(s: Seq<EdgeInfo>, i: int)
    requires
        spec_sorted(s),
        0 <= i <= s.len(),
    ensures
        spec_sorted(spec_dedup_prefix(s, i)),
        forall|a: int|
            0 < a < spec_dedup_prefix(s, i).len() ==> spec_dedup_prefix(s, i)[a - 1]
                != #[trigger] spec_dedup_prefix(s, i)[a],
        i > 0 ==> spec_dedup_prefix(s, i).len() > 0 && spec_dedup_prefix(s, i).last() == s[i - 1],
        forall|a: int|
            0 <= a < spec_dedup_prefix(s, i).len() ==> exists|k: int|
                0 <= k < i && s[k] == #[trigger] spec_dedup_prefix(s, i)[a],
    decreases i,
{
    if i > 0 {
        lemma_dedup_prefix_props(s, i - 1);
        let prev = spec_dedup_prefix(s, i - 1);
        let cur = spec_dedup_prefix(s, i);
        if i - 1 == 0 || s[i - 1] != s[i - 2] {
            assert(cur == prev + seq![s[i - 1]]);
            assert forall|a: int| 0 <= a < cur.len() implies exists|k: int|
                0 <= k < i && s[k] == #[trigger] cur[a] by {
                if a < prev.len() {
                    assert(cur[a] == prev[a]);
                } else {
                    assert(cur[a] == s[i - 1]);
                }
            }
            assert forall|a: int, b: int| 0 <= a < b < cur.len() implies edge_key_le(
                cur[a],
                cur[b],
            ) by {
                if b < prev.len() {
                    assert(edge_key_le(prev[a], prev[b]));
                } else {
                    let k = choose|k: int| 0 <= k < i - 1 && s[k] == prev[a];
                    assert(edge_key_le(s[k], s[i - 1]));
                }
            }
        } else {
            assert(cur =~= prev);
        }
    }
}

/// Every element of a sorted sequence survives duplicate removal: only its
/// later copies fall.
proof fn lemma_dedup_keeps(s: Seq<EdgeInfo>, i: int)
    requires
        0 <= i < s.len(),
    ensures
        spec_dedup(s).contains(s[i]),
    decreases i,
{
    if i == 0 || s[i] != s[i - 1] {
        lemma_dedup_prefix_elem(s, i, s.len() as int);
    } else {
        lemma_dedup_keeps(s, i - 1);
    }
}

/// A kept element of the dedup pass stands in every longer prefix.
proof fn lemma_dedup_prefix_elem(s: Seq<EdgeInfo>, i: int, j: int)
    requires
        0 <= i < j <= s.len(),
        i == 0 || s[i] != s[i - 1],
    ensures
        spec_dedup_prefix(s, j).contains(s[i]),
    decreases j - i,
{
    if j == i + 1 {
        let cur = spec_dedup_prefix(s, j);
        assert(cur.last() == s[i]);
        assert(cur.contains(s[i])) by {
            assert(cur[cur.len() - 1] == s[i]);
        }
    } else {
        lemma_dedup_prefix_elem(s, i, j - 1);
        let prev = spec_dedup_prefix(s, j - 1);
        let cur = spec_dedup_prefix(s, j);
        let a = choose|a: int| 0 <= a < prev.len() && prev[a] == s[i];
        assert(cur[a] == s[i]);
        assert(cur.contains(s[i])) by {
            assert(cur[a] == s[i]);
        }
    }
}

/// Whether position `k` of `s` survives the dominance pass.
pub open spec fn spec_kept(s: Seq<EdgeInfo>, k: int) -> bool {
    k == 0 || !dominates(s[k - 1], s[k])
}

/// A kept element of the dominance pass stands in every longer prefix.
proof fn lemma_dominance_prefix_elem(s: Seq<EdgeInfo>, i: int, j: int)
    requires
        0 <= i < j <= s.len(),
        spec_kept(s, i),
    ensures
        spec_dominance_prefix(s, j).contains(s[i]),
    decreases j - i,
{
    if j == i + 1 {
        let cur = spec_dominance_prefix(s, j);
        assert(cur.contains(s[i])) by {
            assert(cur[cur.len() - 1] == s[i]);
        }
    } else {
        lemma_dominance_prefix_elem(s, i, j - 1);
        let prev = spec_dominance_prefix(s, j - 1);
        let cur = spec_dominance_prefix(s, j);
        let a = choose|a: int| 0 <= a < prev.len() && prev[a] == s[i];
        assert(cur.contains(s[i])) by {
            assert(cur[a] == s[i]);
        }
    }
}

/// Every element the dominance pass keeps comes from a kept position.
proof fn lemma_dominance_prefix_elements(s: Seq<EdgeInfo>, j: int)
    requires
        0 <= j <= s.len(),
    ensures
        forall|m: int|
            0 <= m < spec_dominance_prefix(s, j).len() ==> exists|k: int|
                0 <= k < j && spec_kept(s, k) && s[k] == #[trigger] spec_dominance_prefix(s, j)[m],
    decreases j,
{
    if j > 0 {
        lemma_dominance_prefix_elements(s, j - 1);
        let prev = spec_dominance_prefix(s, j - 1);
        let cur = spec_dominance_prefix(s, j);
        assert forall|m: int| 0 <= m < cur.len() implies exists|k: int|
            0 <= k < j && spec_kept(s, k) && s[k] == #[trigger] cur[m] by {
            if m < prev.len() {
                assert(cur[m] == prev[m]);
                assert(exists|k: int|
                    0 <= k < j - 1 && spec_kept(s, k) && s[k] == #[trigger] prev[m]);
                let k = choose|k: int| 0 <= k < j - 1 && spec_kept(s, k) && s[k] == prev[m];
                assert(0 <= k < j && spec_kept(s, k) && s[k] == cur[m]);
            } else {
                assert(cur[m] == s[j - 1]);
                assert(spec_kept(s, j - 1));
                assert(0 <= j - 1 < j && spec_kept(s, j - 1) && s[j - 1] == cur[m]);
            }
        }
    }
}

/// Every position of `s` is dominated by a survivor of the dominance pass:
/// its own value when kept, else along the chain of its predecessors.
proof fn lemma_dominance_covers(s: Seq<EdgeInfo>, k: int)
    requires
        0 <= k < s.len(),
    ensures
        exists|m: int|
            0 <= m < spec_dominance(s).len() && dominates(#[trigger] spec_dominance(s)[m], s[k]),
    decreases k,
{
    broadcast use vstd::seq_lib::group_seq_properties;

    if spec_kept(s, k) {
        lemma_dominance_prefix_elem(s, k, s.len() as int);
        let m = choose|m: int|
            0 <= m < spec_dominance(s).len() && spec_dominance(s)[m] == s[k];
        assert(dominates(spec_dominance(s)[m], s[k]));
    } else {
        lemma_dominance_covers(s, k - 1);
        let m = choose|m: int|
            0 <= m < spec_dominance(s).len() && dominates(spec_dominance(s)[m], s[k - 1]);
        assert(dominates(s[k - 1], s[k]));
        assert(dominates(spec_dominance(s)[m], s[k]));
    }
}

/// SOUNDNESS OF THE FILTER. Every edge of the input is represented in the
/// output: some surviving edge shares its endpoints and is no worse in
/// length, elevation gain and unsuitability. In particular at least one
/// edge of every parallel group survives.
pub proof fn lemma_every_edge_dominated(edges: Seq<EdgeInfo>, x: EdgeInfo)
    requires
        edges.contains(x),
    ensures
        exists|m: int|
            0 <= m < spec_filtered(edges).len() && dominates(#[trigger] spec_filtered(edges)[m], x),
{
    broadcast use vstd::seq_lib::group_seq_properties;
    broadcast use vstd::seq_lib::group_to_multiset_ensures;

    lemma_edge_order_total();
    edges.lemma_sort_by_ensures(edge_order());
    let t = spec_sorted_of(edges);
    assert(edges.to_multiset().count(x) > 0);
    assert(t.contains(x));
    let i = choose|i: int| 0 <= i < t.len() && t[i] == x;
    lemma_spec_sorted_is_sorted_by(t);
    lemma_dedup_keeps(t, i);
    let d = spec_dedup(t);
    let k = choose|k: int| 0 <= k < d.len() && d[k] == x;
    lemma_dominance_covers(d, k);
    let m = choose|m: int|
        0 <= m < spec_dominance(d).len() && dominates(#[trigger] spec_dominance(d)[m], d[k]);
    assert(spec_filtered(edges) == spec_dominance(d));
    assert(0 <= m < spec_filtered(edges).len() && dominates(spec_filtered(edges)[m], x));
}

/// A sorted sequence with pairwise distinct adjacent elements has pairwise
/// distinct elements everywhere.
proof fn lemma_strict_sorted_distinct(s: Seq<EdgeInfo>)
    requires
        spec_sorted(s),
        forall|a: int| 0 < a < s.len() ==> s[a - 1] != #[trigger] s[a],
    ensures
        forall|a: int, b: int| 0 <= a < b < s.len() ==> #[trigger] s[a] != #[trigger] s[b],
{
    assert forall|a: int, b: int| 0 <= a < b < s.len() implies #[trigger] s[a] != #[trigger] s[b] by {
        assert(edge_key_le(s[a], s[a + 1]));
        if a + 1 < b {
            assert(edge_key_le(s[a + 1], s[b]));
        }
        assert(s[a] != s[a + 1]);
    }
}

/// DOMINATED PAIR REMOVAL. When exactly two distinct edges of the input
/// join some ordered endpoint pair and one dominates the other, the
/// dominated edge is removed and the dominating edge survives.
pub proof fn lemma_dominated_pair_removed(edges: Seq<EdgeInfo>, a: EdgeInfo, b: EdgeInfo)
    requires
        a != b,
        dominates(a, b),
        edges.contains(a),
        edges.contains(b),
        forall|i: int|
            0 <= i < edges.len() && same_endpoints(#[trigger] edges[i], a) ==> edges[i] == a
                || edges[i] == b,
    ensures
        !spec_filtered(edges).contains(b),
        spec_filtered(edges).contains(a),
{
    broadcast use vstd::seq_lib::group_seq_properties;
    broadcast use vstd::seq_lib::group_to_multiset_ensures;

    lemma_edge_order_total();
    edges.lemma_sort_by_ensures(edge_order());
    let t = spec_sorted_of(edges);
    lemma_spec_sorted_is_sorted_by(t);
    assert(spec_sorted(t));
    // Sorting keeps exactly the input elements.
    assert(t.contains(a)) by {
        assert(edges.to_multiset().count(a) > 0);
    }
    assert(t.contains(b)) by {
        assert(edges.to_multiset().count(b) > 0);
    }
    assert forall|i: int| 0 <= i < t.len() implies edges.contains(#[trigger] t[i]) by {
        assert(t.to_multiset().count(t[i]) > 0);
    }
    lemma_dedup_prefix_props(t, t.len() as int);
    let d = spec_dedup(t);
    lemma_strict_sorted_distinct(d);
    assert forall|i: int| 0 <= i < d.len() implies edges.contains(#[trigger] d[i]) by {
        let k = choose|k: int| 0 <= k < t.len() && t[k] == d[i];
        assert(edges.contains(t[k]));
    }
    let ti = choose|i: int| 0 <= i < t.len() && t[i] == a;
    let tj = choose|j: int| 0 <= j < t.len() && t[j] == b;
    lemma_dedup_keeps(t, ti);
    lemma_dedup_keeps(t, tj);
    let ia = choose|i: int| 0 <= i < d.len() && d[i] == a;
    let ib = choose|j: int| 0 <= j < d.len() && d[j] == b;
    // Dominance with distinctness makes `a` strictly earlier in the order.
    assert(edge_key_le(a, b) && !edge_key_le(b, a));
    assert(ia < ib) by {
        if ib < ia {
            assert(edge_key_le(d[ib], d[ia]));
        }
    }
    // Nothing sits between them: anything there would share the endpoints,
    // and `a` and `b` are the only such edges.
    assert(ib == ia + 1) by {
        if ib > ia + 1 {
            let c = d[ia + 1];
            assert(edge_key_le(a, c));
            assert(edge_key_le(c, b));
            assert(same_endpoints(c, a));
            assert(edges.contains(c));
            assert(c == a || c == b);
            assert(d[ia] != d[ia + 1] && d[ib] != d[ia + 1]);
        }
    }
    assert(!spec_kept(d, ib));
    // The dominated edge's only position is dropped, so its value is gone.
    assert(!spec_filtered(edges).contains(b)) by {
        lemma_dominance_prefix_elements(d, d.len() as int);
        if spec_dominance(d).contains(b) {
            let m = choose|m: int|
                0 <= m < spec_dominance(d).len() && spec_dominance(d)[m] == b;
            let k = choose|k: int|
                0 <= k < d.len() && spec_kept(d, k) && d[k] == spec_dominance(d)[m];
            assert(k == ib);
        }
    }
    // The dominating edge is kept: its predecessor, if any, has different
    // endpoints.
    assert(spec_kept(d, ia)) by {
        if ia > 0 && dominates(d[ia - 1], d[ia]) {
            assert(same_endpoints(d[ia - 1], a));
            assert(edges.contains(d[ia - 1]));
            assert(d[ia - 1] == a || d[ia - 1] == b);
            assert(d[ia - 1] != d[ia]);
        }
    }
    lemma_dominance_prefix_elem(d, ia, d.len() as int);
}

proof fn lemma_dominance_prefix_distinct(s: Seq<EdgeInfo>, j: int)
    requires
        0 <= j <= s.len(),
        forall|a: int, b: int| 0 <= a < b < s.len() ==> #[trigger] s[a] != #[trigger] s[b],
    ensures
        forall|a: int, b: int|
            0 <= a < b < spec_dominance_prefix(s, j).len() ==> #[trigger] spec_dominance_prefix(
                s,
                j,
            )[a] != #[trigger] spec_dominance_prefix(s, j)[b],
    decreases j,
{
    if j > 0 {
        lemma_dominance_prefix_distinct(s, j - 1);
        lemma_dominance_prefix_elements(s, j - 1);
        let prev = spec_dominance_prefix(s, j - 1);
        let cur = spec_dominance_prefix(s, j);
        assert forall|a: int, b: int| 0 <= a < b < cur.len() implies #[trigger] cur[a]
            != #[trigger] cur[b] by {
            if b < prev.len() {
                assert(cur[a] == prev[a] && cur[b] == prev[b]);
            } else {
                assert(cur[b] == s[j - 1]);
                assert(cur[a] == prev[a]);
                let k = choose|k: int| 0 <= k < j - 1 && spec_kept(s, k) && s[k] == prev[a];
                assert(s[k] != s[j - 1]);
            }
        }
    }
}

/// DISTINCT SURVIVORS, NO MUTUAL DOMINATION. The filter's output holds no
/// edge twice, and no two of its edges dominate each other: mutually
/// dominating parallel edges are exact duplicates, and at most one copy of
/// each survives.
pub proof fn lemma_survivors_not_mutually_dominated(edges: Seq<EdgeInfo>, i: int, j: int)
    requires
        0 <= i < j < spec_filtered(edges).len(),
    ensures
        spec_filtered(edges)[i] != spec_filtered(edges)[j],
        !(dominates(spec_filtered(edges)[i], spec_filtered(edges)[j]) && dominates(
            spec_filtered(edges)[j],
            spec_filtered(edges)[i],
        )),
{
    lemma_edge_order_total();
    edges.lemma_sort_by_ensures(edge_order());
    let t = spec_sorted_of(edges);
    lemma_spec_sorted_is_sorted_by(t);
    lemma_dedup_prefix_props(t, t.len() as int);
    let d = spec_dedup(t);
    lemma_strict_sorted_distinct(d);
    lemma_dominance_prefix_distinct(d, d.len() as int);
    let r = spec_filtered(edges);
    assert(r == spec_dominance(d));
    assert(r[i] != r[j]);
    if dominates(r[i], r[j]) && dominates(r[j], r[i]) {
        assert(r[i] == r[j]);
    }
}

/// STABILITY OF THE FILTER. A sorted edge list in which no edge is
/// dominated by its predecessor passes through the whole filter unchanged.
/// Together with the filter's contract this pins down when a second run is
/// the identity.
pub proof fn lemma_filter_fixed_point(s: Seq<EdgeInfo>)
    requires
        spec_sorted(s),
        forall|i: int| 0 < i < s.len() ==> !dominates(s[i - 1], #[trigger] s[i]),
    ensures
        spec_filtered(s) == s,
{
    lemma_edge_order_total();
    s.lemma_sort_by_ensures(edge_order());
    lemma_spec_sorted_is_sorted_by(s);
    lemma_spec_sorted_is_sorted_by(spec_sorted_of(s));
    vstd::seq_lib::lemma_sorted_unique(s, spec_sorted_of(s), edge_order());
    assert(spec_sorted_of(s) == s);
    assert forall|i: int| 0 < i < s.len() implies s[i - 1] != #[trigger] s[i] by {
        assert(!dominates(s[i - 1], s[i]));
    }
    lemma_dedup_identity(s, s.len() as int);
    assert(spec_dedup(s) == s);
    lemma_dominance_identity(s, s.len() as int);
    assert(spec_dominance(s) == s);
}

proof fn lemma_dedup_identity(s: Seq<EdgeInfo>, i: int)
    requires
        0 <= i <= s.len(),
        forall|a: int| 0 < a < s.len() ==> s[a - 1] != #[trigger] s[a],
    ensures
        spec_dedup_prefix(s, i) == s.take(i),
    decreases i,
{
    if i == 0 {
        assert(spec_dedup_prefix(s, i) =~= s.take(i));
    } else {
        lemma_dedup_identity(s, i - 1);
        assert(spec_dedup_prefix(s, i) =~= s.take(i));
    }
}

proof fn lemma_dominance_identity(s: Seq<EdgeInfo>, i: int)
    requires
        0 <= i <= s.len(),
        forall|a: int| 0 < a < s.len() ==> !dominates(s[a - 1], #[trigger] s[a]),
    ensures
        spec_dominance_prefix(s, i) == s.take(i),
    decreases i,
{
    if i == 0 {
        assert(spec_dominance_prefix(s, i) =~= s.take(i));
    } else {
        lemma_dominance_identity(s, i - 1);
        assert(spec_dominance_prefix(s, i) =~= s.take(i));
    }
}

/// Runs the whole filter: canonical sort, duplicate removal, dominance
/// pass. Returns the surviving edges together with how many edges each of
/// the two removal stages dropped.
pub fn dedup_and_filter(edges: Vec<EdgeInfo>) -> (r: (Vec<EdgeInfo>, usize, usize))
    ensures
        r.0@ == spec_filtered(edges@),
        r.1 == edges@.len() - spec_dedup(spec_sorted_of(edges@)).len(),
        r.2 == spec_dedup(spec_sorted_of(edges@)).len() - spec_filtered(edges@).len(),
{
    broadcast use vstd::seq_lib::group_to_multiset_ensures;

    let mut edges = edges;
    let before = edges.len();
    sort_edges(&mut edges);
    let deduped = dedup_edges(&edges);
    let dup_removed = before - deduped.len();
    let surviving = dominance_filter(&deduped);
    let dom_removed = deduped.len() - surviving.len();
    (surviving, dup_removed, dom_removed)
}

} // verus!
