use vstd::prelude::*;
use vstd::seq_lib::{to_multiset_build, to_multiset_len};
use vstd::arithmetic::div_mod::lemma_fundamental_div_mod;
use crate::parallel::{chunk_of, chunk_count, covered};

verus! {

/// What the edges of `el` that leave `v` carry, in the order in which the
/// edge list holds them. For a plain edge list that is the destinations.
pub open spec fn dests<W>(el: Seq<(usize, W)>, v: int) -> Seq<W>
    decreases el.len(),
{
    if el.len() == 0 {
        Seq::empty()
    } else if el.last().0 == v {
        dests(el.drop_last(), v).push(el.last().1)
    } else {
        dests(el.drop_last(), v)
    }
}

/// The number of edges of `el` that leave `v`.
pub open spec fn out_degree<W>(el: Seq<(usize, W)>, v: int) -> nat {
    dests(el, v).len()
}

/// The number of edges of `el` whose source is below `v`: where the group of
/// `v` starts once the edges are grouped by source.
pub open spec fn edges_before<W>(el: Seq<(usize, W)>, v: int) -> nat
    decreases v,
{
    if v <= 0 {
        0
    } else {
        edges_before(el, v - 1) + out_degree(el, v - 1)
    }
}

/// Every endpoint of every edge names one of `numv` vertices.
pub open spec fn edges_in_range(el: Seq<(usize, usize)>, numv: int) -> bool {
    forall|k: int| 0 <= k < el.len() ==> (#[trigger] el[k]).0 < numv && el[k].1 < numv
}

/// Taking one more edge appends its destination to the group of its source and
/// leaves the other groups alone.
pub proof fn lemma_dests_step<W>(el: Seq<(usize, W)>, k: int, v: int)
    requires
        0 <= k < el.len(),
    ensures
        dests(el.take(k + 1), v) == if el[k].0 == v {
            dests(el.take(k), v).push(el[k].1)
        } else {
            dests(el.take(k), v)
        },
{
    assert(el.take(k + 1).drop_last() =~= el.take(k));
    assert(el.take(k + 1).last() == el[k]);
}

/// A prefix of the edge list holds a prefix of every group.
pub proof fn lemma_dests_prefix<W>(el: Seq<(usize, W)>, k: int, v: int)
    requires
        0 <= k <= el.len(),
    ensures
        dests(el.take(k), v).len() <= dests(el, v).len(),
        dests(el.take(k), v).len() <= k,
        forall|j: int| 0 <= j < dests(el.take(k), v).len() ==> dests(el.take(k), v)[j] == dests(el, v)[j],
    decreases el.len() - k,
{
    if k == el.len() {
        assert(el.take(k) =~= el);
        lemma_dests_len(el, v);
    } else {
        lemma_dests_step(el, k, v);
        lemma_dests_prefix(el, k + 1, v);
        lemma_dests_len(el.take(k), v);
    }
}

/// A group holds no more destinations than the list holds edges.
pub proof fn lemma_dests_len<W>(el: Seq<(usize, W)>, v: int)
    ensures
        dests(el, v).len() <= el.len(),
    decreases el.len(),
{
    if el.len() > 0 {
        lemma_dests_len(el.drop_last(), v);
    }
}

/// Every destination in a group is the destination of some edge.
pub proof fn lemma_dests_member<W>(el: Seq<(usize, W)>, v: int, j: int)
    requires
        0 <= j < dests(el, v).len(),
    ensures
        exists|k: int| 0 <= k < el.len() && (#[trigger] el[k]).0 == v && el[k].1 == dests(el, v)[j],
    decreases el.len(),
{
    if el.len() > 0 {
        let init = el.drop_last();
        if el.last().0 == v && j == dests(init, v).len() {
            assert(el[el.len() - 1].0 == v);
        } else {
            lemma_dests_member(init, v, j);
            let k = choose|k: int| 0 <= k < init.len() && (#[trigger] init[k]).0 == v && init[k].1 == dests(init, v)[j];
            assert(el[k] == init[k]);
        }
    }
}

/// Group starts never decrease with the vertex, and the group of `a` ends
/// at or before the start of any later group.
pub proof fn lemma_edges_before_mono<W>(el: Seq<(usize, W)>, a: int, b: int)
    requires
        0 <= a <= b,
    ensures
        edges_before(el, a) <= edges_before(el, b),
        a < b ==> edges_before(el, a) + out_degree(el, a) <= edges_before(el, b),
    decreases b - a,
{
    if a < b {
        lemma_edges_before_mono(el, a, b - 1);
    }
}

/// One more edge adds one to the count below `n` exactly when its source is
/// below `n`.
pub proof fn lemma_edges_before_last<W>(el: Seq<(usize, W)>, n: int)
    requires
        el.len() > 0,
        0 <= n,
    ensures
        edges_before(el, n) == edges_before(el.drop_last(), n) + if el.last().0 < n {
            1nat
        } else {
            0nat
        },
    decreases n,
{
    if n > 0 {
        lemma_edges_before_last(el, n - 1);
    }
}

/// When every source is below `numv`, the groups together hold every edge.
pub proof fn lemma_edges_before_total<W>(el: Seq<(usize, W)>, numv: int)
    requires
        0 <= numv,
        forall|k: int| 0 <= k < el.len() ==> (#[trigger] el[k]).0 < numv,
    ensures
        edges_before(el, numv) == el.len(),
    decreases el.len(),
{
    if el.len() == 0 {
        lemma_edges_before_empty(el, numv);
    } else {
        let init = el.drop_last();
        assert forall|k: int| 0 <= k < init.len() implies (#[trigger] init[k]).0 < numv by {
            assert(init[k] == el[k]);
        }
        lemma_edges_before_total(init, numv);
        lemma_edges_before_last(el, numv);
        assert(el[el.len() - 1].0 < numv);
    }
}

/// An empty edge list has empty groups.
pub proof fn lemma_edges_before_empty<W>(el: Seq<(usize, W)>, n: int)
    requires
        el.len() == 0,
    ensures
        edges_before(el, n) == 0,
    decreases n,
{
    if n > 0 {
        lemma_edges_before_empty(el, n - 1);
    }
}

/// The index, once the edges are grouped by source, of the `j`-th edge that
/// leaves `v`.
pub open spec fn slot<W>(el: Seq<(usize, W)>, v: int, j: int) -> int {
    edges_before(el, v) + j
}

/// Every index below the number of grouped edges lies in the group of some
/// vertex.
pub proof fn lemma_slot_owner<W>(el: Seq<(usize, W)>, numv: int, i: int)
    requires
        0 <= i < edges_before(el, numv),
    ensures
        exists|v: int|
            0 <= v < numv && #[trigger] edges_before(el, v) <= i < edges_before(el, v) + out_degree(el, v),
    decreases numv,
{
    if numv > 0 {
        if i >= edges_before(el, numv - 1) {
            assert(edges_before(el, numv - 1) <= i < edges_before(el, numv - 1) + out_degree(
                el,
                numv - 1,
            ));
        } else {
            lemma_slot_owner(el, numv - 1, i);
        }
    }
}

/// Counts the edges of a chunk by their source: slot `v` of the result is the
/// number of edges in the chunk that leave `v`.
pub fn count_sources<W>(chunk: &[(usize, W)], numv: usize) -> (ncnt: Vec<usize>)
    requires
        forall|k: int| 0 <= k < chunk@.len() ==> (#[trigger] chunk@[k]).0 < numv,
    ensures
        ncnt@.len() == numv,
        forall|v: int| 0 <= v < numv ==> #[trigger] ncnt@[v] == out_degree(chunk@, v),
{
    let nume: usize = chunk.len();
    let ghost els = chunk@;

    let mut ncnt: Vec<usize> = Vec::new();
    let mut i: usize = 0;
    while i < numv
        invariant
            i <= numv,
            ncnt@.len() == i,
            forall|k: int| 0 <= k < i ==> ncnt@[k] == 0,
        decreases numv - i,
    {
        ncnt.push(0);
        i += 1;
    }

    let mut k: usize = 0;
    proof {
        assert(els.take(0) =~= Seq::<(usize, W)>::empty());
    }
    while k < nume
        invariant
            k <= nume,
            nume == chunk@.len(),
            els == chunk@,
            ncnt@.len() == numv,
            forall|k: int| 0 <= k < els.len() ==> (#[trigger] els[k]).0 < numv,
            forall|v: int| 0 <= v < numv ==> #[trigger] ncnt@[v] == out_degree(els.take(k as int), v),
        decreases nume - k,
    {
        let v0: usize = chunk[k].0;
        proof {
            assert forall|v: int| 0 <= v < numv implies out_degree(els.take(k + 1), v) == (if v == v0 {
                ncnt@[v] + 1
            } else {
                ncnt@[v] as int
            }) by {
                lemma_dests_step(els, k as int, v);
            }
            lemma_dests_prefix(els, k as int, v0 as int);
        }
        let c: usize = ncnt[v0];
        ncnt.set(v0, c + 1);
        k += 1;
    }
    proof {
        assert(els.take(nume as int) =~= els);
    }
    ncnt
}

/// Places what the edges carry in groups by their source, given how many
/// edges leave each vertex: the counts become group starts by a running sum,
/// then each edge's load goes to its source's cursor. The groups keep the
/// order of the edge list. `fill` is what the output holds before it is
/// filled.
pub fn place_by_source<W: Copy>(numv: usize, el: &Vec<(usize, W)>, ncnt: &Vec<usize>, fill: W) -> (r: (
    Vec<usize>,
    Vec<W>,
))
    requires
        forall|k: int| 0 <= k < el@.len() ==> (#[trigger] el@[k]).0 < numv,
        ncnt@.len() == numv,
        forall|v: int| 0 <= v < numv ==> #[trigger] ncnt@[v] == out_degree(el@, v),
    ensures
        r.0@.len() == numv,
        r.1@.len() == el@.len(),
        edges_before(el@, numv as int) == el@.len(),
        forall|v: int| 0 <= v < numv ==> #[trigger] r.0@[v] == edges_before(el@, v),
        forall|v: int, j: int|
            0 <= v < numv && 0 <= j < out_degree(el@, v) ==> r.1@[#[trigger] slot(el@, v, j)] == dests(
                el@,
                v,
            )[j],
{
    let nume: usize = el.len();
    let ghost els = el@;
    proof {
        lemma_edges_before_total(els, numv as int);
    }

    let mut offsets: Vec<usize> = Vec::new();
    let mut cursor: Vec<usize> = Vec::new();
    let mut run: usize = 0;
    let mut i: usize = 0;
    while i < numv
        invariant
            i <= numv,
            ncnt@.len() == numv,
            offsets@.len() == i,
            cursor@.len() == i,
            run == edges_before(els, i as int),
            edges_before(els, numv as int) == nume,
            forall|v: int| 0 <= v < numv ==> #[trigger] ncnt@[v] == out_degree(els, v),
            forall|v: int| 0 <= v < i ==> #[trigger] offsets@[v] == edges_before(els, v),
            forall|v: int| 0 <= v < i ==> #[trigger] cursor@[v] == edges_before(els, v),
        decreases numv - i,
    {
        offsets.push(run);
        cursor.push(run);
        proof {
            lemma_edges_before_mono(els, i + 1, numv as int);
        }
        run = run + ncnt[i];
        i += 1;
    }

    let mut items: Vec<W> = Vec::new();
    let mut k: usize = 0;
    while k < nume
        invariant
            k <= nume,
            items@.len() == k,
        decreases nume - k,
    {
        items.push(fill);
        k += 1;
    }

    let mut k: usize = 0;
    proof {
        assert(els.take(0) =~= Seq::<(usize, W)>::empty());
    }
    while k < nume
        invariant
            k <= nume,
            nume == el@.len(),
            els == el@,
            forall|k: int| 0 <= k < els.len() ==> (#[trigger] els[k]).0 < numv,
            offsets@.len() == numv,
            cursor@.len() == numv,
            items@.len() == nume,
            edges_before(els, numv as int) == nume,
            forall|v: int| 0 <= v < numv ==> #[trigger] offsets@[v] == edges_before(els, v),
            forall|v: int|
                0 <= v < numv ==> #[trigger] cursor@[v] == edges_before(els, v) + out_degree(
                    els.take(k as int),
                    v,
                ),
            forall|v: int, j: int|
                0 <= v < numv && 0 <= j < out_degree(els.take(k as int), v) ==> 0 <= #[trigger] slot(
                    els,
                    v,
                    j,
                ) < nume && items@[slot(els, v, j)] == dests(els.take(k as int), v)[j],
        decreases nume - k,
    {
        let v0: usize = el[k].0;
        let w: W = el[k].1;
        let cur: usize = cursor[v0];
        proof {
            lemma_dests_step(els, k as int, v0 as int);
            lemma_dests_prefix(els, k + 1, v0 as int);
            lemma_edges_before_mono(els, v0 as int, numv as int);
        }
        cursor.set(v0, cur + 1);
        items.set(cur, w);
        proof {
            assert forall|v: int| 0 <= v < numv implies #[trigger] cursor@[v] == edges_before(els, v)
                + out_degree(els.take(k + 1), v) by {
                lemma_dests_step(els, k as int, v);
            }
            assert forall|v: int, j: int|
                0 <= v < numv && 0 <= j < out_degree(els.take(k + 1), v) implies 0 <= #[trigger] slot(
                els,
                v,
                j,
            ) < nume && items@[slot(els, v, j)] == dests(els.take(k + 1), v)[j] by {
                lemma_dests_step(els, k as int, v);
                lemma_dests_prefix(els, k + 1, v);
                lemma_edges_before_mono(els, v, numv as int);
                if v < v0 {
                    lemma_edges_before_mono(els, v, v0 as int);
                } else if v > v0 {
                    lemma_edges_before_mono(els, v0 as int, v);
                }
            }
        }
        k += 1;
    }
    proof {
        assert(els.take(nume as int) =~= els);
    }
    (offsets, items)
}

/// Groups what the edges carry by their source, by a counting sort, one pass
/// after the other: count each vertex's edges, then place the edges.
pub fn group_by_source<W: Copy>(numv: usize, el: &Vec<(usize, W)>, fill: W) -> (r: (Vec<usize>, Vec<W>))
    requires
        forall|k: int| 0 <= k < el@.len() ==> (#[trigger] el@[k]).0 < numv,
    ensures
        r.0@.len() == numv,
        r.1@.len() == el@.len(),
        edges_before(el@, numv as int) == el@.len(),
        forall|v: int| 0 <= v < numv ==> #[trigger] r.0@[v] == edges_before(el@, v),
        forall|v: int, j: int|
            0 <= v < numv && 0 <= j < out_degree(el@, v) ==> r.1@[#[trigger] slot(el@, v, j)] == dests(
                el@,
                v,
            )[j],
{
    let ncnt = count_sources(el.as_slice(), numv);
    place_by_source(numv, el, &ncnt, fill)
}

/// A destination stands in the group of `v` as often as the edge from `v` to
/// it stands in the edge list.
pub proof fn lemma_dests_count(el: Seq<(usize, usize)>, v: usize, d: usize)
    ensures
        dests(el, v as int).to_multiset().count(d) == el.to_multiset().count((v, d)),
    decreases el.len(),
{
    if el.len() == 0 {
        assert(el.to_multiset().count((v, d)) == 0) by {
            to_multiset_len(el);
        }
        assert(dests(el, v as int).to_multiset().count(d) == 0) by {
            to_multiset_len(dests(el, v as int));
        }
    } else {
        let init = el.drop_last();
        let last = el.last();
        lemma_dests_count(init, v, d);
        assert(el =~= init.push(last));
        to_multiset_build(init, last);
        if last.0 == v {
            to_multiset_build(dests(init, v as int), last.1);
        }
    }
}

/// Two edge lists that hold the same edges, each equally often, have the
/// same groups up to order, and so the same group sizes and group starts.
pub proof fn lemma_groups_of_same_edges(a: Seq<(usize, usize)>, b: Seq<(usize, usize)>, v: usize)
    requires
        a.to_multiset() == b.to_multiset(),
    ensures
        a.len() == b.len(),
        dests(a, v as int).to_multiset() == dests(b, v as int).to_multiset(),
        out_degree(a, v as int) == out_degree(b, v as int),
        edges_before(a, v as int) == edges_before(b, v as int),
    decreases v,
{
    to_multiset_len(a);
    to_multiset_len(b);
    assert forall|d: usize|
        dests(a, v as int).to_multiset().count(d) == dests(b, v as int).to_multiset().count(d) by {
        lemma_dests_count(a, v, d);
        lemma_dests_count(b, v, d);
    }
    assert(dests(a, v as int).to_multiset() =~= dests(b, v as int).to_multiset());
    to_multiset_len(dests(a, v as int));
    to_multiset_len(dests(b, v as int));
    if v > 0 {
        lemma_groups_of_same_edges(a, b, (v - 1) as usize);
    }
}

/// `cnt` holds for each of `numv` vertices the number of edges in `chunk`
/// that leave it.
pub open spec fn counts_of<W>(cnt: Seq<usize>, chunk: Seq<(usize, W)>, numv: int) -> bool {
    &&& cnt.len() == numv
    &&& forall|v: int| 0 <= v < numv ==> #[trigger] cnt[v] == out_degree(chunk, v)
}

/// The group of `v` in two edge lists put together is its group in the first
/// followed by its group in the second.
pub proof fn lemma_dests_concat<W>(a: Seq<(usize, W)>, b: Seq<(usize, W)>, v: int)
    ensures
        dests(a + b, v) == dests(a, v) + dests(b, v),
    decreases b.len(),
{
    if b.len() == 0 {
        assert(a + b =~= a);
        assert(dests(a, v) + dests(b, v) =~= dests(a, v));
    } else {
        lemma_dests_concat(a, b.drop_last(), v);
        assert((a + b).drop_last() =~= a + b.drop_last());
        assert((a + b).last() == b.last());
        if b.last().0 == v {
            assert(dests(a + b, v) =~= dests(a, v) + dests(b, v));
        }
    }
}

/// Adds up the counts of the chunks of an edge list: slot `v` of the result
/// is the number of edges in the whole list that leave `v`.
pub fn merge_counts(el: &Vec<(usize, usize)>, chunksz: usize, numv: usize, parts: &Vec<Vec<usize>>) -> (ncnt:
    Vec<usize>)
    requires
        chunksz > 0,
        parts@.len() == chunk_count(el@.len() as int, chunksz as int),
        forall|row: int|
            0 <= row < parts@.len() ==> counts_of(
                (#[trigger] parts@[row])@,
                chunk_of(el@, chunksz as int, row),
                numv as int,
            ),
    ensures
        ncnt@.len() == numv,
        forall|v: int| 0 <= v < numv ==> #[trigger] ncnt@[v] == out_degree(el@, v),
{
    let ghost els = el@;
    let ghost cs = chunksz as int;
    let ghost nume = els.len() as int;
    let total: usize = el.len();
    let mut ncnt: Vec<usize> = Vec::new();
    let mut i: usize = 0;
    while i < numv
        invariant
            i <= numv,
            ncnt@.len() == i,
            forall|k: int| 0 <= k < i ==> ncnt@[k] == 0,
        decreases numv - i,
    {
        ncnt.push(0);
        i += 1;
    }
    proof {
        assert(els.take(0) =~= Seq::<(usize, usize)>::empty());
        lemma_fundamental_div_mod(nume + cs - 1, cs);
    }
    let mut r: usize = 0;
    while r < parts.len()
        invariant
            r <= parts@.len(),
            cs == chunksz,
            cs > 0,
            nume == total,
            els == el@,
            nume == els.len(),
            ncnt@.len() == numv,
            parts@.len() == chunk_count(nume, cs),
            nume + cs - 1 == cs * ((nume + cs - 1) / cs) + (nume + cs - 1) % cs,
            forall|row: int|
                0 <= row < parts@.len() ==> counts_of(
                    (#[trigger] parts@[row])@,
                    chunk_of(els, cs, row),
                    numv as int,
                ),
            forall|v: int|
                0 <= v < numv ==> #[trigger] ncnt@[v] == out_degree(els.take(covered(nume, cs, r as int)), v),
        decreases parts@.len() - r,
    {
        let part: &Vec<usize> = &parts[r];
        let ghost lo = covered(nume, cs, r as int);
        let ghost hi = covered(nume, cs, r + 1);
        proof {
            assert(counts_of(parts@[r as int]@, chunk_of(els, cs, r as int), numv as int));
            assert(r * cs < nume && (r + 1) * cs == r * cs + cs && 0 <= r * cs) by (nonlinear_arith)
                requires
                    0 <= r < (nume + cs - 1) / cs,
                    nume + cs - 1 == cs * ((nume + cs - 1) / cs) + (nume + cs - 1) % cs,
                    0 <= (nume + cs - 1) % cs,
                    cs > 0,
            ;
            assert(lo == r * cs);
            assert(els.take(hi) =~= els.take(lo) + chunk_of(els, cs, r as int));
        }
        let mut v: usize = 0;
        while v < numv
            invariant
                v <= numv,
                ncnt@.len() == numv,
                part@.len() == numv,
                0 <= lo <= hi <= nume,
                nume == els.len(),
                nume == total,
                els.take(hi) == els.take(lo) + chunk_of(els, cs, r as int),
                forall|u: int| 0 <= u < numv ==> #[trigger] part@[u] == out_degree(chunk_of(els, cs, r as int), u),
                forall|u: int| 0 <= u < v ==> #[trigger] ncnt@[u] == out_degree(els.take(hi), u),
                forall|u: int| v <= u < numv ==> #[trigger] ncnt@[u] == out_degree(els.take(lo), u),
            decreases numv - v,
        {
            proof {
                lemma_dests_concat(els.take(lo), chunk_of(els, cs, r as int), v as int);
                lemma_dests_len(els.take(hi), v as int);
            }
            let sum: usize = ncnt[v] + part[v];
            ncnt.set(v, sum);
            v += 1;
        }
        r += 1;
    }
    proof {
        assert(covered(nume, cs, r as int) == nume) by (nonlinear_arith)
            requires
                r == (nume + cs - 1) / cs,
                nume + cs - 1 == cs * ((nume + cs - 1) / cs) + (nume + cs - 1) % cs,
                (nume + cs - 1) % cs < cs,
                cs > 0,
                nume >= 0,
                covered(nume, cs, r as int) == if r * cs <= nume {
                    r * cs
                } else {
                    nume
                },
        ;
        assert(els.take(nume) =~= els);
    }
    ncnt
}

} // verus!
