use vstd::prelude::*;
use crate::csr::CSR;
use crate::image::{
    image_v, image_e, image_offset, image_neighbor, image_range_end, image_valid,
    image_neighbors_of, lemma_csr_image_reads,
};
use crate::edges::{dests, edges_before, lemma_groups_of_same_edges};
use crate::reach::{lemma_distinct_bounded, lemma_bfs_prefix};

verus! {

/// Building is determined up to the order inside a group: two structures that
/// store the same edge list over the same vertices have the same counts and
/// the same offsets, and for every vertex the same destinations, each equally
/// often.
pub proof fn lemma_build_determined<P>(a: &CSR<P>, b: &CSR<P>, numv: int, el: Seq<(usize, usize)>)
    requires
        a.represents(numv, el),
        b.represents(numv, el),
    ensures
        a.num_vertices() == b.num_vertices(),
        a.num_edges() == b.num_edges(),
        a.offsets() == b.offsets(),
        forall|v: int|
            0 <= v < numv ==> (#[trigger] a.neighbors_of(v)).to_multiset() == b.neighbors_of(
                v,
            ).to_multiset(),
{
    assert forall|i: int| 0 <= i < numv implies a.offsets()[i] == b.offsets()[i] by {
        assert(a.offsets()[i] == edges_before(el, i));
        assert(b.offsets()[i] == edges_before(el, i));
    }
    assert(a.offsets() =~= b.offsets());
    assert forall|v: int| 0 <= v < numv implies (#[trigger] a.neighbors_of(v)).to_multiset()
        == b.neighbors_of(v).to_multiset() by {
        assert(b.neighbors_of(v).to_multiset() == dests(el, v).to_multiset());
    }
}

/// In a graph where every vertex can be reached from vertex 0, a
/// breadth-first order from 0 has as many positions as the graph has
/// vertices, holds every vertex, holds none twice, and holds only vertices
/// that a walk from 0 reaches.
pub proof fn lemma_bfs_covers_connected<P>(g: &CSR<P>, order: Seq<usize>)
    requires
        g.wf(),
        g.is_bfs_order(0, order),
        forall|v: usize| v < g.num_vertices() ==> g.reachable(0, v),
    ensures
        order.len() == g.num_vertices(),
        order.no_duplicates(),
        forall|v: usize| v < g.num_vertices() ==> order.contains(v),
        forall|i: int| 0 <= i < order.len() ==> g.reachable(0, #[trigger] order[i]),
{
    lemma_distinct_bounded(order, g.num_vertices());
    assert forall|i: int| 0 <= i < order.len() implies g.reachable(0, #[trigger] order[i]) by {
        assert(order.contains(order[i]));
    }
}

/// The structure depends on which edges the list holds and how often, not on
/// their order, but for the order inside a group: two structures that store
/// edge lists with the same edges, each equally often, have the same counts
/// and the same offsets, and for every vertex the same destinations, each
/// equally often.
pub proof fn lemma_build_ignores_edge_order<P>(
    a: &CSR<P>,
    b: &CSR<P>,
    numv: int,
    el_a: Seq<(usize, usize)>,
    el_b: Seq<(usize, usize)>,
)
    requires
        el_a.to_multiset() == el_b.to_multiset(),
        a.represents(numv, el_a),
        b.represents(numv, el_b),
    ensures
        a.num_vertices() == b.num_vertices(),
        a.num_edges() == b.num_edges(),
        a.offsets() == b.offsets(),
        forall|v: int|
            0 <= v < numv ==> (#[trigger] a.neighbors_of(v)).to_multiset() == b.neighbors_of(
                v,
            ).to_multiset(),
{
    lemma_groups_of_same_edges(el_a, el_b, 0);
    assert forall|i: int| 0 <= i < numv implies a.offsets()[i] == b.offsets()[i] by {
        lemma_groups_of_same_edges(el_a, el_b, i as usize);
        assert(a.offsets()[i] == edges_before(el_a, i));
        assert(b.offsets()[i] == edges_before(el_b, i));
    }
    assert(a.offsets() =~= b.offsets());
    assert forall|v: int| 0 <= v < numv implies (#[trigger] a.neighbors_of(v)).to_multiset()
        == b.neighbors_of(v).to_multiset() by {
        lemma_groups_of_same_edges(el_a, el_b, v as usize);
        assert(b.neighbors_of(v).to_multiset() == dests(el_b, v).to_multiset());
    }
}

/// A graph has one breadth-first order from a start vertex: two sequences
/// that both are such an order are equal.
pub proof fn lemma_bfs_order_unique<P>(g: &CSR<P>, start: usize, a: Seq<usize>, b: Seq<usize>)
    requires
        g.is_bfs_order(start, a),
        g.is_bfs_order(start, b),
    ensures
        a == b,
{
    a.unique_seq_to_set();
    b.unique_seq_to_set();
    assert(a.to_set() =~= b.to_set()) by {
        assert forall|v: usize| a.to_set().contains(v) <==> b.to_set().contains(v) by {
            assert(a.contains(v) <==> g.reachable(start, v));
            assert(b.contains(v) <==> g.reachable(start, v));
        }
    }
    lemma_bfs_prefix(g, start, a, b, a.len() as int);
    assert(a =~= b);
}

/// Round trip: the image of a well-formed graph is complete and valid, its
/// header gives the graph's counts, and every vertex's neighbours are read
/// from it as the graph stores them, in the same order.
pub proof fn lemma_image_round_trip<P>(g: &CSR<P>)
    requires
        g.wf(),
    ensures
        image_valid(g.image()),
        image_v(g.image()) == g.num_vertices(),
        image_e(g.image()) == g.num_edges(),
        forall|v: int|
            0 <= v < g.num_vertices() ==> #[trigger] image_neighbors_of(g.image(), v) == g.neighbors_of(v),
{
    let b = g.image();
    lemma_csr_image_reads(
        g.num_vertices() as usize,
        g.num_edges() as usize,
        g.offsets(),
        g.neighbors(),
    );
    assert forall|i: int| 0 <= i < image_v(b) implies #[trigger] image_offset(b, i) <= image_range_end(b, i)
        <= image_e(b) by {
        if i + 1 < image_v(b) {
            assert(image_offset(b, i + 1) == g.offsets()[i + 1]);
        }
    }
    assert forall|v: int| 0 <= v < g.num_vertices() implies #[trigger] image_neighbors_of(b, v)
        == g.neighbors_of(v) by {
        if v + 1 < image_v(b) {
            assert(image_offset(b, v + 1) == g.offsets()[v + 1]);
        }
        assert(image_offset(b, v) == g.offsets()[v]);
        assert(image_range_end(b, v) == g.range_end(v));
        assert forall|k: int| 0 <= k < g.range_end(v) - g.offsets()[v] implies image_neighbors_of(b, v)[k]
            == g.neighbors_of(v)[k] by {
            assert(image_neighbor(b, g.offsets()[v] + k) == g.neighbors()[g.offsets()[v] + k]);
        }
        assert(image_neighbors_of(b, v) =~= g.neighbors_of(v));
    }
}

} // verus!
