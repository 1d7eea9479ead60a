use vstd::prelude::*;
use vstd::slice::slice_subrange;
use crate::edges::{
    dests, out_degree, edges_before, slot, group_by_source, lemma_dests_member,
    lemma_edges_before_mono, lemma_slot_owner,
};

verus! {

/// A weighted edge list as sources with their loads: each edge's source, and
/// its destination and weight as a pair.
pub open spec fn loads(el: Seq<(usize, usize, u64)>) -> Seq<(usize, (usize, u64))> {
    Seq::new(el.len(), |k: int| (el[k].0, (el[k].1, el[k].2)))
}

/// Every endpoint of every weighted edge names one of `numv` vertices.
pub open spec fn weighted_in_range(el: Seq<(usize, usize, u64)>, numv: int) -> bool {
    forall|k: int| 0 <= k < el.len() ==> (#[trigger] el[k]).0 < numv && el[k].1 < numv
}

/// A weighted graph in compressed sparse row form: one flat array of
/// destinations with their weights, grouped by source, and for each vertex
/// the index at which its group starts. The group of the last vertex ends
/// with the array.
#[derive(Debug)]
pub struct CSR<P> {
    vtxprop: Vec<P>,
    v: usize,
    e: usize,
    offsets: Vec<usize>,
    neighbs: Vec<(usize, u64)>,
}

impl<P> CSR<P> {
    /// The number of vertices.
    pub closed spec fn num_vertices(&self) -> nat {
        self.v as nat
    }

    /// The number of edges.
    pub closed spec fn num_edges(&self) -> nat {
        self.e as nat
    }

    /// The start of each vertex's group in the edge array.
    pub closed spec fn offsets(&self) -> Seq<usize> {
        self.offsets@
    }

    /// The destination and weight of every edge, grouped by source.
    pub closed spec fn neighbors(&self) -> Seq<(usize, u64)> {
        self.neighbs@
    }

    /// The per-vertex property values.
    pub closed spec fn props(&self) -> Seq<P> {
        self.vtxprop@
    }

    /// Where the group of `v` ends: at the next vertex's start, or for the
    /// last vertex at the end of the edge array.
    pub open spec fn range_end(&self, v: int) -> int {
        if v + 1 < self.num_vertices() {
            self.offsets()[v + 1] as int
        } else {
            self.num_edges() as int
        }
    }

    /// The destinations and weights of the edges that leave `v`, in storage
    /// order.
    pub open spec fn neighbors_of(&self, v: int) -> Seq<(usize, u64)> {
        self.neighbors().subrange(self.offsets()[v] as int, self.range_end(v))
    }

    /// There is an edge from `a` to `b` with weight `w`.
    pub open spec fn has_edge(&self, a: usize, b: usize, w: u64) -> bool {
        &&& a < self.num_vertices()
        &&& exists|j: int|
            self.offsets()[a as int] <= j < self.range_end(a as int) && #[trigger] self.neighbors()[j]
                == (b, w)
    }

    /// The structure invariant: the arrays have the stated lengths, the
    /// offsets never decrease and stay within the edge array, and every
    /// destination names a vertex.
    pub open spec fn wf(&self) -> bool {
        &&& self.offsets().len() == self.num_vertices()
        &&& self.neighbors().len() == self.num_edges()
        &&& self.props().len() == self.num_vertices()
        &&& forall|i: int, j: int|
            0 <= i <= j < self.num_vertices() ==> self.offsets()[i] <= self.offsets()[j]
        &&& forall|i: int| 0 <= i < self.num_vertices() ==> self.offsets()[i] <= self.num_edges()
        &&& forall|i: int| 0 <= i < self.num_edges() ==> self.neighbors()[i].0 < self.num_vertices()
    }

    /// Builds the structure from a weighted edge list, one pass after the
    /// other: each group starts after the edges of all lower sources and
    /// holds its vertex's edges in the order of the list. Every property
    /// starts at the type's default value.
    pub fn new(numv: usize, el: Vec<(usize, usize, u64)>) -> (g: CSR<P>) where P: Default
        requires
            weighted_in_range(el@, numv as int),
        ensures
            g.wf(),
            g.num_vertices() == numv,
            g.num_edges() == el@.len(),
            forall|v: int| 0 <= v < numv ==> g.offsets()[v] == edges_before(loads(el@), v),
            forall|v: int| 0 <= v < numv ==> #[trigger] g.neighbors_of(v) == dests(loads(el@), v),
            forall|i: int| 0 <= i < numv ==> call_ensures(P::default, (), #[trigger] g.props()[i]),
    {
        let nume: usize = el.len();
        let ghost els = loads(el@);
        let mut pairs: Vec<(usize, (usize, u64))> = Vec::new();
        let mut k: usize = 0;
        while k < nume
            invariant
                k <= nume,
                nume == el@.len(),
                pairs@.len() == k,
                forall|j: int| 0 <= j < k ==> pairs@[j] == loads(el@)[j],
            decreases nume - k,
        {
            let (v0, v1, weight) = el[k];
            pairs.push((v0, (v1, weight)));
            k += 1;
        }
        proof {
            assert(pairs@ =~= els);
        }
        let (offsets, neighbs) = group_by_source(numv, &pairs, (0usize, 0u64));

        let mut vtxprop: Vec<P> = Vec::new();
        let mut i: usize = 0;
        while i < numv
            invariant
                i <= numv,
                vtxprop@.len() == i,
                forall|k: int| 0 <= k < i ==> call_ensures(P::default, (), #[trigger] vtxprop@[k]),
            decreases numv - i,
        {
            vtxprop.push(P::default());
            i += 1;
        }

        let g = CSR { vtxprop, v: numv, e: nume, offsets, neighbs };
        proof {
            assert forall|i: int, j: int| 0 <= i <= j < numv implies g.offsets()[i] <= g.offsets()[j] by {
                lemma_edges_before_mono(els, i, j);
            }
            assert forall|i: int| 0 <= i < numv implies g.offsets()[i] <= nume by {
                lemma_edges_before_mono(els, i, numv as int);
            }
            assert forall|i: int| 0 <= i < nume implies g.neighbors()[i].0 < numv by {
                lemma_slot_owner(els, numv as int, i);
                let v = choose|v: int|
                    0 <= v < numv && #[trigger] edges_before(els, v) <= i < edges_before(els, v)
                        + out_degree(els, v);
                let j = i - edges_before(els, v);
                assert(g.neighbs@[slot(els, v, j)] == dests(els, v)[j]);
                lemma_dests_member(els, v, j);
            }
            assert forall|v: int| 0 <= v < numv implies #[trigger] g.neighbors_of(v) == dests(els, v) by {
                lemma_edges_before_mono(els, v, numv as int);
                if v + 1 < numv {
                    assert(g.range_end(v) == edges_before(els, v + 1));
                } else {
                    assert(g.range_end(v) == edges_before(els, numv as int));
                }
                assert(g.range_end(v) == edges_before(els, v) + out_degree(els, v));
                assert forall|j: int| 0 <= j < out_degree(els, v) implies g.neighbors_of(v)[j] == dests(
                    els,
                    v,
                )[j] by {
                    assert(g.neighbs@[slot(els, v, j)] == dests(els, v)[j]);
                }
                assert(g.neighbors_of(v) =~= dests(els, v));
            }
        }
        g
    }

    /// The number of vertices.
    pub fn get_v(&self) -> (r: usize)
        ensures
            r == self.num_vertices(),
    {
        self.v
    }

    /// The per-vertex property values, to be changed in place.
    pub fn get_mut_vtxprop(&mut self) -> (r: &mut [P])
        ensures
            r@ == old(self).props(),
            final(self).props() == final(r)@,
            final(self).num_vertices() == old(self).num_vertices(),
            final(self).num_edges() == old(self).num_edges(),
            final(self).offsets() == old(self).offsets(),
            final(self).neighbors() == old(self).neighbors(),
    {
        self.vtxprop.as_mut_slice()
    }

    /// The destinations and weights of the edges leaving `v`, as a slice of
    /// the edge array.
    pub fn neighbors_slice(&self, v: usize) -> (r: &[(usize, u64)])
        requires
            self.wf(),
            v < self.num_vertices(),
        ensures
            r@ == self.neighbors_of(v as int),
    {
        let start: usize = self.offsets[v];
        let end: usize = if v == self.v - 1 {
            self.e
        } else {
            self.offsets[v + 1]
        };
        slice_subrange(self.neighbs.as_slice(), start, end)
    }

    /// Calls `f(source, destination, weight)` for every edge, one call after
    /// the other: the vertices in increasing order, and the edges of one
    /// vertex in storage order. `f` need only accept the edges of the graph.
    pub fn read_only_traversal<F: Fn(usize, usize, u64) -> ()>(&self, f: F)
        requires
            self.wf(),
            forall|s: usize, d: usize, w: u64| self.has_edge(s, d, w) ==> call_requires(f, (s, d, w)),
    {
        let len: usize = self.offsets.len();
        let mut i: usize = 0;
        while i < len
            invariant
                self.wf(),
                len == self.num_vertices(),
                i <= len,
                forall|s: usize, d: usize, w: u64| self.has_edge(s, d, w) ==> call_requires(f, (s, d, w)),
            decreases len - i,
        {
            let i_start: usize = self.offsets[i];
            let i_end: usize = if i == len - 1 {
                self.neighbs.len()
            } else {
                self.offsets[i + 1]
            };
            let mut ei: usize = i_start;
            while ei < i_end
                invariant
                    self.wf(),
                    i < self.num_vertices(),
                    i_start == self.offsets()[i as int],
                    i_end == self.range_end(i as int),
                    i_start <= ei <= i_end <= self.num_edges(),
                    forall|s: usize, d: usize, w: u64|
                        self.has_edge(s, d, w) ==> call_requires(f, (s, d, w)),
                decreases i_end - ei,
            {
                let (v1, weight) = self.neighbs[ei];
                proof {
                    assert(self.neighbors()[ei as int] == (v1, weight));
                    assert(self.has_edge(i, v1, weight));
                }
                f(i, v1, weight);
                ei += 1;
            }
            i += 1;
        }
    }
}

} // verus!
