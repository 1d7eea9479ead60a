use vstd::prelude::*;
use crate::csr::CSR;
use crate::reach::{
    lemma_reach_step, lemma_reach_self, lemma_walk_inside, lemma_distinct_bounded,
    lemma_first_parent_unique, lemma_first_slot_unique,
};
use crate::visited::{bits, bitvec_from_elem, bitvec_get, bitvec_set};

verus! {

impl<P> CSR<P> {
    /// There is an edge from `a` to `b`.
    pub open spec fn has_edge(&self, a: usize, b: usize) -> bool {
        &&& a < self.num_vertices()
        &&& exists|j: int|
            self.offsets()[a as int] <= j < self.range_end(a as int) && self.neighbors()[j] == b
    }

    /// `p` is a walk: a non-empty sequence of vertices, each joined to the
    /// next by an edge.
    pub open spec fn is_walk(&self, p: Seq<usize>) -> bool {
        &&& p.len() > 0
        &&& forall|i: int| 0 <= i < p.len() ==> p[i] < self.num_vertices()
        &&& forall|i: int| 0 <= i < p.len() - 1 ==> self.has_edge(#[trigger] p[i], p[i + 1])
    }

    /// Some walk leads from `a` to `b`.
    pub open spec fn reachable(&self, a: usize, b: usize) -> bool {
        exists|p: Seq<usize>| self.is_walk(p) && p[0] == a && p.last() == b
    }

    /// Position `p` is the first in `order` whose vertex has an edge to the
    /// vertex at position `i`.
    pub open spec fn is_first_parent(&self, order: Seq<usize>, i: int, p: int) -> bool {
        &&& 0 <= p < order.len()
        &&& self.has_edge(order[p], order[i])
        &&& forall|q: int| 0 <= q < p ==> !self.has_edge(#[trigger] order[q], order[i])
    }

    /// Slot `s` is the first in the group of `a` that holds `b`.
    pub open spec fn is_first_slot(&self, a: usize, b: usize, s: int) -> bool {
        &&& self.offsets()[a as int] <= s < self.range_end(a as int)
        &&& self.neighbors()[s] == b
        &&& forall|t: int| self.offsets()[a as int] <= t < s ==> #[trigger] self.neighbors()[t] != b
    }

    /// The vertex at position `i` of `order` has an edge from a vertex at an
    /// earlier position.
    pub open spec fn found_from_earlier(&self, order: Seq<usize>, i: int) -> bool {
        exists|p: int| 0 <= p < i && #[trigger] self.is_first_parent(order, i, p)
    }

    /// The vertex at position `i` is found before the one at position `j`:
    /// its first parent stands earlier in `order`, or both have the same
    /// first parent and `i`'s vertex comes first in that parent's group.
    pub open spec fn found_in_turn(&self, order: Seq<usize>, i: int, j: int) -> bool {
        forall|p: int, q: int, s: int, t: int|
            #[trigger] self.is_first_parent(order, i, p) && #[trigger] self.is_first_parent(order, j, q)
                && #[trigger] self.is_first_slot(order[p], order[i], s) && #[trigger] self.is_first_slot(
                order[q],
                order[j],
                t,
            ) ==> p < q || (p == q && s < t)
    }

    /// `order` is the breadth-first visiting order from `start`: it begins
    /// with `start`, holds each vertex that a walk from `start` reaches
    /// exactly once and no other, every later vertex has an edge from an
    /// earlier one, and the later vertices stand in the order in which the
    /// search finds them: by the position of the first vertex with an edge to
    /// them, then by their first place in that vertex's group.
    pub open spec fn is_bfs_order(&self, start: usize, order: Seq<usize>) -> bool {
        &&& order.len() > 0
        &&& order[0] == start
        &&& order.no_duplicates()
        &&& forall|i: int| 0 <= i < order.len() ==> order[i] < self.num_vertices()
        &&& forall|v: usize| order.contains(v) <==> self.reachable(start, v)
        &&& forall|i: int| 1 <= i < order.len() ==> self.found_from_earlier(order, i)
        &&& forall|i: int, j: int| 1 <= i < j < order.len() ==> self.found_in_turn(order, i, j)
    }

    /// The vertices that a walk from `start` reaches, in the order in which a
    /// breadth-first search finds them: `start` first, then the unvisited
    /// destinations of each visited vertex in turn, in storage order.
    pub fn bfs_order(&self, start: usize) -> (order: Vec<usize>)
        requires
            self.wf(),
            start < self.num_vertices(),
        ensures
            self.is_bfs_order(start, order@),
    {
        let neighbs: &[usize] = self.get_neighbs();
        let mut visited = bitvec_from_elem(self.get_v(), false);
        let mut order: Vec<usize> = Vec::new();
        bitvec_set(&mut visited, start, true);
        order.push(start);
        let ghost mut par: Seq<int> = seq![0int];
        let ghost mut at: Seq<int> = seq![0int];
        proof {
            lemma_reach_self(self, start);
            assert(order@[0] == start);
            assert forall|u: usize| u < self.num_vertices() implies (bits(visited)[u as int]
                <==> order@.contains(u)) by {
                if order@.contains(u) {
                    let i = choose|i: int| 0 <= i < order@.len() && order@[i] == u;
                }
            }
        }
        let mut head: usize = 0;
        while head < order.len()
            invariant
                self.wf(),
                neighbs@ == self.neighbors(),
                start < self.num_vertices(),
                bits(visited).len() == self.num_vertices(),
                head <= order@.len(),
                order@.len() > 0,
                order@[0] == start,
                order@.no_duplicates(),
                par.len() == order@.len(),
                at.len() == order@.len(),
                forall|i: int| 0 <= i < order@.len() ==> order@[i] < self.num_vertices(),
                forall|u: usize|
                    u < self.num_vertices() ==> (bits(visited)[u as int] <==> order@.contains(u)),
                forall|i: int| 0 <= i < order@.len() ==> self.reachable(start, #[trigger] order@[i]),
                forall|i: int, j: int|
                    0 <= i < head && self.offsets()[#[trigger] order@[i] as int] <= j < self.range_end(
                        order@[i] as int,
                    ) ==> bits(visited)[#[trigger] self.neighbors()[j] as int],
                forall|i: int|
                    1 <= i < order@.len() ==> #[trigger] par[i] < i && par[i] < head
                        && self.is_first_parent(order@, i, par[i]) && self.is_first_slot(
                        order@[par[i]],
                        order@[i],
                        at[i],
                    ),
                forall|i: int, j: int|
                    1 <= i < j < order@.len() ==> #[trigger] par[i] <= #[trigger] par[j] && (par[i]
                        == par[j] ==> at[i] < at[j]),
            decreases self.num_vertices() - head,
        {
            proof {
                lemma_distinct_bounded(order@, self.num_vertices());
            }
            let v: usize = order[head];
            let (st, en) = self.vtx_offset_range(v);
            let mut nei: usize = st;
            while nei < en
                invariant
                    self.wf(),
                    neighbs@ == self.neighbors(),
                    start < self.num_vertices(),
                    bits(visited).len() == self.num_vertices(),
                    head < order@.len(),
                    v == order@[head as int],
                    v < self.num_vertices(),
                    st == self.offsets()[v as int],
                    en == self.range_end(v as int),
                    st <= nei <= en <= self.num_edges(),
                    order@.len() > 0,
                    order@[0] == start,
                    order@.no_duplicates(),
                    par.len() == order@.len(),
                    at.len() == order@.len(),
                    forall|i: int| 0 <= i < order@.len() ==> order@[i] < self.num_vertices(),
                    forall|u: usize|
                        u < self.num_vertices() ==> (bits(visited)[u as int] <==> order@.contains(u)),
                    forall|i: int|
                        0 <= i < order@.len() ==> self.reachable(start, #[trigger] order@[i]),
                    forall|i: int, j: int|
                        0 <= i < head && self.offsets()[#[trigger] order@[i] as int] <= j
                            < self.range_end(order@[i] as int) ==> bits(visited)[#[trigger] self.neighbors()[j] as int],
                    forall|j: int| st <= j < nei ==> bits(visited)[#[trigger] self.neighbors()[j] as int],
                    forall|i: int|
                        1 <= i < order@.len() ==> #[trigger] par[i] < i && par[i] <= head
                            && self.is_first_parent(order@, i, par[i]) && self.is_first_slot(
                            order@[par[i]],
                            order@[i],
                            at[i],
                        ) && (par[i] == head ==> at[i] < nei),
                    forall|i: int, j: int|
                        1 <= i < j < order@.len() ==> #[trigger] par[i] <= #[trigger] par[j] && (par[i]
                            == par[j] ==> at[i] < at[j]),
                decreases en - nei,
            {
                let ne: usize = neighbs[nei];
                match bitvec_get(&visited, ne) {
                    Some(false) => {
                        let ghost old_order = order@;
                        let ghost old_par = par;
                        let ghost old_at = at;
                        proof {
                            assert(!old_order.contains(ne));
                            assert forall|q: int| 0 <= q < head implies !self.has_edge(
                                #[trigger] old_order[q],
                                ne,
                            ) by {
                                if self.has_edge(old_order[q], ne) {
                                    let j = choose|j: int|
                                        self.offsets()[old_order[q] as int] <= j < self.range_end(
                                            old_order[q] as int,
                                        ) && self.neighbors()[j] == ne;
                                    assert(bits(visited)[self.neighbors()[j] as int]);
                                }
                            }
                            assert forall|t: int| st <= t < nei implies #[trigger] self.neighbors()[t]
                                != ne by {
                                assert(bits(visited)[self.neighbors()[t] as int]);
                            }
                        }
                        bitvec_set(&mut visited, ne, true);
                        order.push(ne);
                        proof {
                            par = par.push(head as int);
                            at = at.push(nei as int);
                            let n = old_order.len() as int;
                            assert(self.has_edge(v, ne));
                            lemma_reach_step(self, start, v, ne);
                            assert forall|u: usize| u < self.num_vertices() implies (bits(
                                visited,
                            )[u as int] <==> order@.contains(u)) by {
                                if u == ne {
                                    assert(order@[n] == ne);
                                } else {
                                    if old_order.contains(u) {
                                        let i = choose|i: int| 0 <= i < n && old_order[i] == u;
                                        assert(order@[i] == u);
                                    }
                                    if order@.contains(u) {
                                        let i = choose|i: int| 0 <= i < order@.len() && order@[i] == u;
                                        assert(old_order[i] == u);
                                    }
                                }
                            }
                            assert forall|i: int| 0 <= i < order@.len() implies self.reachable(
                                start,
                                #[trigger] order@[i],
                            ) by {
                                if i < n {
                                    assert(order@[i] == old_order[i]);
                                }
                            }
                            assert forall|i: int| 1 <= i < order@.len() implies #[trigger] par[i] < i
                                && par[i] <= head && self.is_first_parent(order@, i, par[i])
                                && self.is_first_slot(order@[par[i]], order@[i], at[i]) && (par[i]
                                == head ==> at[i] < nei + 1) by {
                                if i < n {
                                    assert(par[i] == old_par[i] && at[i] == old_at[i]);
                                    assert(self.is_first_parent(old_order, i, old_par[i]));
                                    assert(order@[i] == old_order[i]);
                                    assert(order@[old_par[i]] == old_order[old_par[i]]);
                                    assert forall|q: int| 0 <= q < par[i] implies !self.has_edge(
                                        #[trigger] order@[q],
                                        order@[i],
                                    ) by {
                                        assert(order@[q] == old_order[q]);
                                    }
                                } else {
                                    assert(order@[i] == ne);
                                    assert(order@[head as int] == v);
                                    assert forall|q: int| 0 <= q < head implies !self.has_edge(
                                        #[trigger] order@[q],
                                        order@[i],
                                    ) by {
                                        assert(order@[q] == old_order[q]);
                                    }
                                }
                            }
                        }
                    },
                    _ => {},
                }
                nei += 1;
            }
            head += 1;
        }
        proof {
            assert forall|a: usize, b: usize| order@.contains(a) && #[trigger] self.has_edge(
                a,
                b,
            ) implies order@.contains(b) by {
                let i = choose|i: int| 0 <= i < order@.len() && order@[i] == a;
                let j = choose|j: int|
                    self.offsets()[a as int] <= j < self.range_end(a as int) && self.neighbors()[j] == b;
                assert(self.offsets()[order@[i] as int] <= j);
                assert(bits(visited)[self.neighbors()[j] as int]);
            }
            assert forall|v: usize| order@.contains(v) <==> self.reachable(start, v) by {
                if self.reachable(start, v) {
                    let p = choose|p: Seq<usize>| self.is_walk(p) && p[0] == start && p.last() == v;
                    lemma_walk_inside(self, order@, p, p.len() - 1);
                }
                if order@.contains(v) {
                    let i = choose|i: int| 0 <= i < order@.len() && order@[i] == v;
                    assert(self.reachable(start, order@[i]));
                }
            }
            assert forall|i: int| 1 <= i < order@.len() implies self.found_from_earlier(order@, i) by {
                assert(self.is_first_parent(order@, i, par[i]));
            }
            assert forall|i: int, j: int| 1 <= i < j < order@.len() implies self.found_in_turn(
                order@,
                i,
                j,
            ) by {
                assert forall|p: int, q: int, s: int, t: int|
                    #[trigger] self.is_first_parent(order@, i, p) && #[trigger] self.is_first_parent(
                        order@,
                        j,
                        q,
                    ) && #[trigger] self.is_first_slot(order@[p], order@[i], s)
                        && #[trigger] self.is_first_slot(order@[q], order@[j], t) implies p < q || (p == q
                    && s < t) by {
                    lemma_first_parent_unique(self, order@, i, p, par[i]);
                    lemma_first_parent_unique(self, order@, j, q, par[j]);
                    lemma_first_slot_unique(self, order@[p], order@[i], s, at[i]);
                    lemma_first_slot_unique(self, order@[q], order@[j], t, at[j]);
                }
            }
        }
        order
    }

    /// Breadth-first traversal from `start`: calls `f` once on each vertex of
    /// `bfs_order(start)`, in that order. `f` need only accept the vertices
    /// that a walk from `start` reaches: it is called on nothing else.
    pub fn bfs_traversal<F: FnMut(usize) -> ()>(&self, start: usize, mut f: F)
        requires
            self.wf(),
            start < self.num_vertices(),
            forall|v: usize| self.reachable(start, v) ==> f.requires((v,)),
    {
        let order = self.bfs_order(start);
        let mut i: usize = 0;
        while i < order.len()
            invariant
                i <= order@.len(),
                self.is_bfs_order(start, order@),
                forall|v: usize| self.reachable(start, v) ==> f.requires((v,)),
            decreases order@.len() - i,
        {
            proof {
                assert(order@.contains(order@[i as int]));
            }
            f(order[i]);
            i += 1;
        }
    }
}

} // verus!
