use vstd::prelude::*;
use vstd::slice::slice_subrange;
use vstd::bytes::u64_to_le_bytes;
use crate::image::{csr_image, le_words, lemma_le_words_push};
use vstd::arithmetic::div_mod::lemma_fundamental_div_mod;
use std::sync::RwLock;
use crate::parallel::{chunk_of, par_count_chunks, par_scan_rows, par_map_index};
use crate::cells::{rwlock_new, rwlock_read, rwlock_write};
use crate::random::random_below;
use crate::edges::{
    dests, out_degree, edges_before, edges_in_range, slot, merge_counts, place_by_source,
    lemma_dests_member, lemma_dests_concat,
    lemma_edges_before_mono, lemma_slot_owner,
};

verus! {

/// A graph in compressed sparse row form: one flat array of destinations,
/// grouped by source, and for each vertex the index at which its group starts.
/// No closing offset is stored: the group of the last vertex ends with the
/// array. `P` is the type of the per-vertex property that scans produce.
#[derive(Debug)]
pub struct CSR<P> {
    v: usize,
    e: usize,
    vtxprop: Vec<P>,
    offsets: Vec<usize>,
    neighbs: Vec<usize>,
}

impl<P> CSR<P> {
    /// The number of vertices.
    pub closed spec fn num_vertices(&self) -> nat {
        self.v as nat
    }

    /// The number of edges.
    pub closed spec fn num_edges(&self) -> nat {
        self.e as nat
    }

    /// The start of each vertex's group in the destination array.
    pub closed spec fn offsets(&self) -> Seq<usize> {
        self.offsets@
    }

    /// The destinations of all edges, grouped by source.
    pub closed spec fn neighbors(&self) -> Seq<usize> {
        self.neighbs@
    }

    /// The per-vertex property values.
    pub closed spec fn props(&self) -> Seq<P> {
        self.vtxprop@
    }

    /// Where the group of `v` ends: at the next vertex's start, or for the
    /// last vertex at the end of the destination array.
    pub open spec fn range_end(&self, v: int) -> int {
        if v + 1 < self.num_vertices() {
            self.offsets()[v + 1] as int
        } else {
            self.num_edges() as int
        }
    }

    /// The destinations of the edges that leave `v`, in storage order.
    pub open spec fn neighbors_of(&self, v: int) -> Seq<usize> {
        self.neighbors().subrange(self.offsets()[v] as int, self.range_end(v))
    }

    /// The structure invariant: the counts fit a machine word, the arrays
    /// have the stated lengths, the offsets start at zero, never decrease and
    /// stay within the destination array, and every destination names a
    /// vertex.
    pub open spec fn wf(&self) -> bool {
        &&& self.num_vertices() <= usize::MAX
        &&& self.num_edges() <= usize::MAX
        &&& self.offsets().len() == self.num_vertices()
        &&& self.neighbors().len() == self.num_edges()
        &&& self.props().len() == self.num_vertices()
        &&& self.num_vertices() > 0 ==> self.offsets()[0] == 0
        &&& forall|i: int, j: int|
            0 <= i <= j < self.num_vertices() ==> self.offsets()[i] <= self.offsets()[j]
        &&& forall|i: int| 0 <= i < self.num_vertices() ==> self.offsets()[i] <= self.num_edges()
        &&& forall|i: int| 0 <= i < self.num_edges() ==> self.neighbors()[i] < self.num_vertices()
    }

    /// This structure stores exactly the edge list `el` over `numv` vertices:
    /// each group starts after the edges of all lower sources, and holds the
    /// destinations of its vertex's edges, each as often as the list does, in
    /// some order.
    pub open spec fn represents(&self, numv: int, el: Seq<(usize, usize)>) -> bool {
        &&& self.wf()
        &&& self.num_vertices() == numv
        &&& self.num_edges() == el.len()
        &&& forall|v: int| 0 <= v < numv ==> self.offsets()[v] == edges_before(el, v)
        &&& forall|v: int|
            0 <= v < numv ==> (#[trigger] self.neighbors_of(v)).to_multiset() == dests(
                el,
                v,
            ).to_multiset()
    }

    /// Builds the structure from an edge list by a counting sort on the
    /// source, in three phases. The edges are cut into a fixed number of
    /// chunks, and worker threads count each chunk's edges by source; the
    /// counts are added up and turned into group starts by a running sum;
    /// then each destination goes to its source's cursor. The edges are
    /// placed one after the other, so every group keeps the order of the edge
    /// list. Every property starts at the type's default value.
    pub fn new(numv: usize, el: Vec<(usize, usize)>) -> (g: CSR<P>) where P: Default
        requires
            edges_in_range(el@, numv as int),
        ensures
            g.represents(numv as int, el@),
            forall|v: int| 0 <= v < numv ==> #[trigger] g.neighbors_of(v) == dests(el@, v),
            forall|i: int| 0 <= i < numv ==> call_ensures(P::default, (), #[trigger] g.props()[i]),
    {
        let nume: usize = el.len();
        let ghost els = el@;
        let chunksz: usize = chunk_size(nume);
        let parts = par_count_chunks(&el, chunksz, numv);
        let ncnt = merge_counts(&el, chunksz, numv, &parts);
        let (offsets, neighbs) = place_by_source(numv, &el, &ncnt, 0usize);

        let mut vtxprop: Vec<P> = Vec::new();
        let mut i: usize = 0;
        while i < numv
            invariant
                i <= numv,
                vtxprop@.len() == i,
                forall|k: int| 0 <= k < i ==> call_ensures(P::default, (), #[trigger] vtxprop@[k]),
            decreases numv - i,
        {
            vtxprop.push(P::default());
            i += 1;
        }

        let g = CSR { v: numv, e: nume, vtxprop, offsets, neighbs };
        proof {
            assert forall|i: int, j: int| 0 <= i <= j < numv implies g.offsets()[i] <= g.offsets()[j] by {
                lemma_edges_before_mono(els, i, j);
            }
            assert forall|i: int| 0 <= i < numv implies g.offsets()[i] <= nume by {
                lemma_edges_before_mono(els, i, numv as int);
            }
            assert forall|i: int| 0 <= i < nume implies g.neighbors()[i] < numv by {
                lemma_slot_owner(els, numv as int, i);
                let v = choose|v: int|
                    0 <= v < numv && #[trigger] edges_before(els, v) <= i < edges_before(els, v)
                        + out_degree(els, v);
                let j = i - edges_before(els, v);
                assert(g.neighbs@[slot(els, v, j)] == dests(els, v)[j]);
                lemma_dests_member(els, v, j);
            }
            assert forall|v: int| 0 <= v < numv implies #[trigger] g.neighbors_of(v) == dests(els, v) by {
                lemma_edges_before_mono(els, v, numv as int);
                if v + 1 < numv {
                    assert(g.range_end(v) == edges_before(els, v + 1));
                } else {
                    assert(g.range_end(v) == edges_before(els, numv as int));
                }
                assert(g.range_end(v) == edges_before(els, v) + out_degree(els, v));
                assert forall|j: int| 0 <= j < out_degree(els, v) implies g.neighbors_of(v)[j] == dests(
                    els,
                    v,
                )[j] by {
                    assert(g.neighbs@[slot(els, v, j)] == dests(els, v)[j]);
                }
                assert(g.neighbors_of(v) =~= dests(els, v));
            }
        }
        g
    }
}

impl<P> CSR<P> {
    /// The per-vertex property values.
    pub fn get_vtxprop(&self) -> (r: &[P])
        ensures
            r@ == self.props(),
    {
        self.vtxprop.as_slice()
    }

    /// The per-vertex property values, to be changed in place. The structure
    /// stays as it is, and the properties end as the slice ends.
    pub fn get_mut_vtxprop(&mut self) -> (r: &mut [P])
        ensures
            r@ == old(self).props(),
            final(self).props() == final(r)@,
            final(self).same_structure(*old(self)),
    {
        self.vtxprop.as_mut_slice()
    }

    /// The number of vertices.
    pub fn get_v(&self) -> (r: usize)
        ensures
            r == self.num_vertices(),
    {
        self.v
    }

    /// The number of edges.
    pub fn get_e(&self) -> (r: usize)
        ensures
            r == self.num_edges(),
    {
        self.e
    }

    /// The start of each vertex's group in the destination array.
    pub fn get_offsets(&self) -> (r: &Vec<usize>)
        ensures
            r@ == self.offsets(),
    {
        &self.offsets
    }

    /// The destinations of all edges, grouped by source.
    pub fn get_neighbs(&self) -> (r: &[usize])
        ensures
            r@ == self.neighbors(),
    {
        self.neighbs.as_slice()
    }

    /// The half-open range of the destination array that holds the edges
    /// leaving `v`.
    pub fn vtx_offset_range(&self, v: usize) -> (r: (usize, usize))
        requires
            self.wf(),
            v < self.num_vertices(),
        ensures
            r.0 == self.offsets()[v as int],
            r.1 == self.range_end(v as int),
            r.0 <= r.1 <= self.num_edges(),
    {
        let start: usize = self.offsets[v];
        let end: usize = if v == self.v - 1 {
            self.e
        } else {
            self.offsets[v + 1]
        };
        (start, end)
    }

    /// The destinations of the edges leaving `v`, as a slice of the
    /// destination array.
    pub fn neighbors_slice(&self, v: usize) -> (r: &[usize])
        requires
            self.wf(),
            v < self.num_vertices(),
        ensures
            r@ == self.neighbors_of(v as int),
    {
        let (start, end) = self.vtx_offset_range(v);
        slice_subrange(self.neighbs.as_slice(), start, end)
    }

    /// Calls `f(source, destination)` for every edge, one call after the
    /// other: the vertices in increasing order, and the edges of one vertex in
    /// storage order. `f` need only accept the edges of the graph: it is
    /// called on nothing else.
    pub fn read_only_scan<F: FnMut(usize, usize) -> ()>(&self, mut f: F)
        requires
            self.wf(),
            forall|s: usize, d: usize| self.has_edge(s, d) ==> f.requires((s, d)),
    {
        let len: usize = self.offsets.len();
        let mut i: usize = 0;
        while i < len
            invariant
                self.wf(),
                len == self.num_vertices(),
                i <= len,
                forall|s: usize, d: usize| self.has_edge(s, d) ==> f.requires((s, d)),
            decreases len - i,
        {
            let (i_start, i_end) = self.vtx_offset_range(i);
            let mut ei: usize = i_start;
            while ei < i_end
                invariant
                    self.wf(),
                    i < self.num_vertices(),
                    i_start <= ei <= i_end <= self.num_edges(),
                    i_start == self.offsets()[i as int],
                    i_end == self.range_end(i as int),
                    forall|s: usize, d: usize| self.has_edge(s, d) ==> f.requires((s, d)),
                decreases i_end - ei,
            {
                let v1: usize = self.neighbs[ei];
                proof {
                    assert(self.has_edge(i, v1));
                }
                f(i, v1);
                ei += 1;
            }
            i += 1;
        }
    }
}

impl<P> CSR<P> {
    /// `f` may be called on every vertex with the slice of its neighbours.
    pub open spec fn scan_allowed<F: Fn(usize, &[usize]) -> P>(&self, f: F) -> bool {
        forall|v: usize, ns: &[usize]|
            v < self.num_vertices() && ns@ == self.neighbors_of(v as int) ==> call_requires(f, (v, ns))
    }

    /// `out` is what `f` returned for vertex `v` and the slice of its
    /// neighbours.
    pub open spec fn scanned<F: Fn(usize, &[usize]) -> P>(&self, f: F, v: int, out: P) -> bool {
        exists|ns: &[usize]| ns@ == self.neighbors_of(v) && #[trigger] call_ensures(f, (v as usize, ns), out)
    }

    /// `vals` holds, slot by slot, what `f` returned for the vertices from
    /// `base` on.
    pub open spec fn row_scanned<F: Fn(usize, &[usize]) -> P>(&self, f: F, base: int, vals: Seq<P>) -> bool {
        forall|ii: int| 0 <= ii < vals.len() ==> self.scanned(f, base + ii, #[trigger] vals[ii])
    }

    /// Fills one chunk of a scan's output: slot `ii` of `out` gets what `f`
    /// returns for vertex `row * chunksz + ii` and its neighbours.
    pub fn scan_row<F: Fn(usize, &[usize]) -> P>(&self, row: usize, chunksz: usize, out: &mut [P], f: &F)
        requires
            self.wf(),
            row * chunksz + old(out)@.len() <= self.num_vertices(),
            self.scan_allowed(*f),
        ensures
            final(out)@.len() == old(out)@.len(),
            self.row_scanned(*f, row * chunksz, final(out)@),
    {
        let base: usize = row * chunksz;
        let n: usize = out.len();
        let mut ii: usize = 0;
        while ii < n
            invariant
                self.wf(),
                self.scan_allowed(*f),
                n == out@.len(),
                ii <= n,
                base + n <= self.num_vertices(),
                forall|k: int| 0 <= k < ii ==> self.scanned(*f, base + k, #[trigger] out@[k]),
            decreases n - ii,
        {
            let v0: usize = base + ii;
            let ns = self.neighbors_slice(v0);
            let val = f(v0, ns);
            proof {
                assert(ns@ == self.neighbors_of(v0 as int) && call_ensures(*f, (v0, ns), val));
            }
            out[ii] = val;
            ii += 1;
        }
    }

    /// The pull scan: every vertex's property becomes what `f` returns for the
    /// vertex and the slice of its neighbours. The vertices are cut into a
    /// fixed number of chunks that worker threads fill independently; `f`
    /// sees the graph's structure only, and the properties change together
    /// once every chunk is done.
    pub fn par_scan<F: Fn(usize, &[usize]) -> P + Sync>(&mut self, f: F) where P: Default + Send + Sync
        requires
            old(self).wf(),
            old(self).scan_allowed(f),
        ensures
            final(self).wf(),
            final(self).same_structure(*old(self)),
            forall|v: int|
                0 <= v < final(self).num_vertices() ==> final(self).scanned(f, v, #[trigger] final(self).props()[v]),
    {
        let chunksz: usize = chunk_size(self.v);
        let numv: usize = self.v;
        let mut scratch: Vec<P> = Vec::new();
        let mut i: usize = 0;
        while i < numv
            invariant
                i <= numv,
                scratch@.len() == i,
            decreases numv - i,
        {
            scratch.push(P::default());
            i += 1;
        }
        par_scan_rows(&*self, chunksz, &f, &mut scratch);
        proof {
            assert forall|v: int| 0 <= v < numv implies self.scanned(f, v, #[trigger] scratch@[v]) by {
                let c = chunksz as int;
                let row = v / c;
                let ii = v % c;
                lemma_fundamental_div_mod(v, c);
                assert(row * c == c * row) by (nonlinear_arith);
                assert((row + 1) * c == row * c + c) by (nonlinear_arith);
                assert(0 <= row) by (nonlinear_arith)
                    requires
                        0 <= v,
                        0 < c,
                        row == v / c,
                ;
                let chunk = chunk_of(scratch@, c, row);
                assert(self.row_scanned(f, row * c, chunk));
                assert(chunk[ii] == scratch@[v]);
            }
        }
        self.vtxprop = scratch;
    }

    /// Two structures hold the same graph: the same counts, offsets and
    /// destinations.
    pub open spec fn same_structure(&self, other: CSR<P>) -> bool {
        &&& self.num_vertices() == other.num_vertices()
        &&& self.num_edges() == other.num_edges()
        &&& self.offsets() == other.offsets()
        &&& self.neighbors() == other.neighbors()
    }
}

/// The number of chunks that parallel passes cut their work into.
pub const NUMCHUNKS: usize = 16;

/// The size of one chunk when `n` items are cut into `NUMCHUNKS` chunks, and
/// one where there are no more items than chunks.
pub fn chunk_size(n: usize) -> (r: usize)
    ensures
        r == if n > NUMCHUNKS {
            n / NUMCHUNKS
        } else {
            1
        },
        r > 0,
{
    if n > NUMCHUNKS {
        n / NUMCHUNKS
    } else {
        1
    }
}

impl<P: Copy> CSR<P> {
    /// `f` may be called with any old value, the slice of any vertex's
    /// neighbours and any buffer of one cell per vertex.
    pub open spec fn update_allowed<F: Fn(P, &[usize], &Vec<RwLock<P>>) -> P>(&self, f: F) -> bool {
        forall|x: P, ns: &[usize], cells: &Vec<RwLock<P>>, v: usize|
            v < self.num_vertices() && ns@ == self.neighbors_of(v as int) && cells@.len()
                == self.num_vertices() ==> call_requires(f, (x, ns, cells))
    }

    /// `out` is what `f` returned for vertex `v`: for some old value, the slice
    /// of the vertex's neighbours and the buffer `cells`.
    pub open spec fn updated_from<F: Fn(P, &[usize], &Vec<RwLock<P>>) -> P>(
        &self,
        f: F,
        v: int,
        cells: &Vec<RwLock<P>>,
        out: P,
    ) -> bool {
        exists|x: P, ns: &[usize]|
            ns@ == self.neighbors_of(v) && #[trigger] call_ensures(f, (x, ns, cells), out)
    }

    /// `vals` is the outcome of one round that read the buffer `cells`: one
    /// value for each vertex, which `f` returned for that vertex.
    pub open spec fn round_of<F: Fn(P, &[usize], &Vec<RwLock<P>>) -> P>(
        &self,
        f: F,
        cells: &Vec<RwLock<P>>,
        vals: Seq<P>,
    ) -> bool {
        &&& cells@.len() == self.num_vertices()
        &&& vals.len() == self.num_vertices()
        &&& forall|v: int| 0 <= v < vals.len() ==> self.updated_from(f, v, cells, #[trigger] vals[v])
    }

    /// One vertex's step of a round: reads the vertex's value from its cell in
    /// `u`, hands it to `f` with the vertex's neighbours and the buffer `v` of
    /// the round before, stores what `f` returns in the vertex's cell in `u`,
    /// and returns it.
    pub fn update_vertex<F: Fn(P, &[usize], &Vec<RwLock<P>>) -> P>(
        &self,
        i: usize,
        v: &Vec<RwLock<P>>,
        u: &Vec<RwLock<P>>,
        f: &F,
    ) -> (n_upd: P)
        requires
            self.wf(),
            i < self.num_vertices(),
            v@.len() == self.num_vertices(),
            u@.len() == self.num_vertices(),
            self.update_allowed(*f),
        ensures
            self.updated_from(*f, i as int, v, n_upd),
    {
        let ns = self.neighbors_slice(i);
        let old_val: P = rwlock_read(&u[i]);
        let n_upd: P = f(old_val, ns, v);
        rwlock_write(&u[i], n_upd);
        proof {
            assert(ns@ == self.neighbors_of(i as int) && call_ensures(*f, (old_val, ns, v), n_upd));
        }
        n_upd
    }

    /// One round: every vertex's step, each as a task of its own. The cells
    /// of `u` take the new values, which are also returned, one for each
    /// vertex.
    fn do_update<F: Fn(P, &[usize], &Vec<RwLock<P>>) -> P + Sync>(
        &self,
        v: &Vec<RwLock<P>>,
        u: &mut Vec<RwLock<P>>,
        f: &F,
    ) -> (vals: Vec<P>) where P: Send + Sync
        requires
            self.wf(),
            v@.len() == self.num_vertices(),
            old(u)@.len() == self.num_vertices(),
            self.update_allowed(*f),
        ensures
            final(u)@.len() == old(u)@.len(),
            self.round_of(*f, v, vals@),
    {
        let cells: &Vec<RwLock<P>> = &*u;
        let step = |i: usize| -> (n_upd: P)
            requires
                i < self.num_vertices(),
            ensures
                self.updated_from(*f, i as int, v, n_upd),
            { self.update_vertex(i, v, cells, f) };
        par_map_index(self.v, step)
    }

    /// Runs `iters` rounds of a double-buffered update. Two buffers of one
    /// locked cell per vertex take turns: a round with an even number reads
    /// the first and writes the second, a round with an odd number the other
    /// way round. What the last round wrote becomes the properties: for each
    /// vertex what `f` returned for it in that round. With no round the
    /// properties stay.
    pub fn update_traversal<F: Fn(P, &[usize], &Vec<RwLock<P>>) -> P + Sync>(&mut self, iters: usize, f: F) where
        P: Default + Send + Sync,

        requires
            old(self).wf(),
            old(self).update_allowed(f),
        ensures
            final(self).wf(),
            final(self).same_structure(*old(self)),
            iters == 0 ==> final(self).props() == old(self).props(),
            iters > 0 ==> exists|cells: &Vec<RwLock<P>>|
                #[trigger] final(self).round_of(f, cells, final(self).props()),
    {
        if iters == 0 {
            return;
        }
        let numv: usize = self.v;
        let mut v1: Vec<RwLock<P>> = Vec::new();
        let mut v2: Vec<RwLock<P>> = Vec::new();
        let mut i: usize = 0;
        while i < numv
            invariant
                self.wf(),
                numv == self.num_vertices(),
                i <= numv,
                v1@.len() == i,
                v2@.len() == i,
            decreases numv - i,
        {
            v1.push(rwlock_new(self.vtxprop[i]));
            v2.push(rwlock_new(P::default()));
            i += 1;
        }

        let mut last: Vec<P> = Vec::new();
        let mut iter: usize = 0;
        while iter < iters
            invariant
                self.wf(),
                self.update_allowed(f),
                numv == self.num_vertices(),
                iter <= iters,
                v1@.len() == numv,
                v2@.len() == numv,
                iter > 0 ==> exists|cells: &Vec<RwLock<P>>| #[trigger] self.round_of(f, cells, last@),
            decreases iters - iter,
        {
            if iter % 2 == 0 {
                last = self.do_update(&v1, &mut v2, &f);
                proof {
                    assert(self.round_of(f, &v1, last@));
                }
            } else {
                last = self.do_update(&v2, &mut v1, &f);
                proof {
                    assert(self.round_of(f, &v2, last@));
                }
            }
            iter += 1;
        }
        proof {
            let cells = choose|cells: &Vec<RwLock<P>>| #[trigger] self.round_of(f, cells, last@);
            assert(cells@.len() == self.num_vertices() && last@.len() == self.num_vertices());
        }
        let ghost before = *self;
        self.vtxprop = last;
        proof {
            let cells = choose|cells: &Vec<RwLock<P>>| #[trigger] before.round_of(f, cells, self.props());
            assert forall|v: int| 0 <= v < self.props().len() implies self.updated_from(
                f,
                v,
                cells,
                #[trigger] self.props()[v],
            ) by {
                assert(before.updated_from(f, v, cells, self.props()[v]));
                assert(self.neighbors_of(v) == before.neighbors_of(v));
            }
            assert(self.round_of(f, cells, self.props()));
        }
    }
}

impl<P> CSR<P> {
    /// The binary image of this graph.
    pub open spec fn image(&self) -> Seq<u8> {
        csr_image(
            self.num_vertices() as usize,
            self.num_edges() as usize,
            self.offsets(),
            self.neighbors(),
        )
    }

    /// Writes the binary image of this graph: the number of vertices, the
    /// number of edges, the offsets and the destinations, each as a
    /// little-endian word of eight bytes.
    pub fn to_image(&self) -> (bytes: Vec<u8>)
        ensures
            bytes@ == self.image(),
    {
        let mut out: Vec<u8> = u64_to_le_bytes(self.v as u64);
        let mut word: Vec<u8> = u64_to_le_bytes(self.e as u64);
        out.append(&mut word);
        let ghost header = out@;
        let mut i: usize = 0;
        while i < self.offsets.len()
            invariant
                i <= self.offsets@.len(),
                out@ == header + le_words(self.offsets@.take(i as int)),
            decreases self.offsets@.len() - i,
        {
            let mut word: Vec<u8> = u64_to_le_bytes(self.offsets[i] as u64);
            proof {
                lemma_le_words_push(self.offsets@.take(i as int), self.offsets@[i as int]);
                assert(self.offsets@.take(i as int).push(self.offsets@[i as int]) =~= self.offsets@.take(
                    i + 1,
                ));
                assert(out@ + word@ =~= header + le_words(self.offsets@.take(i + 1)));
            }
            out.append(&mut word);
            i += 1;
        }
        proof {
            assert(self.offsets@.take(self.offsets@.len() as int) =~= self.offsets@);
        }
        let ghost front = out@;
        let mut j: usize = 0;
        while j < self.neighbs.len()
            invariant
                j <= self.neighbs@.len(),
                out@ == front + le_words(self.neighbs@.take(j as int)),
            decreases self.neighbs@.len() - j,
        {
            let mut word: Vec<u8> = u64_to_le_bytes(self.neighbs[j] as u64);
            proof {
                lemma_le_words_push(self.neighbs@.take(j as int), self.neighbs@[j as int]);
                assert(self.neighbs@.take(j as int).push(self.neighbs@[j as int]) =~= self.neighbs@.take(
                    j + 1,
                ));
                assert(out@ + word@ =~= front + le_words(self.neighbs@.take(j + 1)));
            }
            out.append(&mut word);
            j += 1;
        }
        proof {
            assert(self.neighbs@.take(self.neighbs@.len() as int) =~= self.neighbs@);
        }
        out
    }
}

/// The edges from `src` to each of `dsts`, in the order of `dsts`.
pub open spec fn fan(src: usize, dsts: Seq<usize>) -> Seq<(usize, usize)> {
    Seq::new(dsts.len(), |k: int| (src, dsts[k]))
}

/// The edges from one source form that source's group and no other.
pub proof fn lemma_dests_fan(src: usize, dsts: Seq<usize>, v: int)
    ensures
        dests(fan(src, dsts), v) == if v == src {
            dsts
        } else {
            Seq::<usize>::empty()
        },
    decreases dsts.len(),
{
    if dsts.len() > 0 {
        lemma_dests_fan(src, dsts.drop_last(), v);
        assert(fan(src, dsts).drop_last() =~= fan(src, dsts.drop_last()));
        assert(fan(src, dsts).last() == (src, dsts.last()));
        if v == src {
            assert(dsts.drop_last().push(dsts.last()) =~= dsts);
        }
    } else {
        assert(dsts =~= Seq::<usize>::empty());
    }
}

/// Appends to an edge list the edges from `src` to each of `dsts`, in the
/// order of `dsts`.
pub fn push_fan(el: &mut Vec<(usize, usize)>, src: usize, dsts: &Vec<usize>)
    ensures
        final(el)@ == old(el)@ + fan(src, dsts@),
{
    let mut k: usize = 0;
    while k < dsts.len()
        invariant
            k <= dsts@.len(),
            el@ == old(el)@ + fan(src, dsts@.take(k as int)),
        decreases dsts@.len() - k,
    {
        let ghost before = el@;
        el.push((src, dsts[k]));
        proof {
            assert(el@ =~= old(el)@ + fan(src, dsts@.take(k + 1)));
        }
        k += 1;
    }
    proof {
        assert(dsts@.take(dsts@.len() as int) =~= dsts@);
    }
}

impl<P> CSR<P> {
    /// A random edge list over `numv` vertices: for each vertex in turn some
    /// number of destinations below `maxe` is drawn, each a random vertex,
    /// and the edges from the vertex to them are appended. The edges of one
    /// source follow each other, and the sources never decrease.
    pub fn random_el(numv: usize, maxe: usize) -> (el: Vec<(usize, usize)>)
        requires
            numv > 0 ==> maxe > 0,
        ensures
            edges_in_range(el@, numv as int),
            forall|k: int, l: int| 0 <= k <= l < el@.len() ==> el@[k].0 <= el@[l].0,
            forall|v: int| 0 <= v < numv ==> out_degree(el@, v) < maxe,
    {
        let mut rng = rand::thread_rng();
        let mut el: Vec<(usize, usize)> = Vec::new();
        let mut i: usize = 0;
        while i < numv
            invariant
                i <= numv,
                numv > 0 ==> maxe > 0,
                edges_in_range(el@, numv as int),
                forall|k: int| 0 <= k < el@.len() ==> (#[trigger] el@[k]).0 < i,
                forall|k: int, l: int| 0 <= k <= l < el@.len() ==> el@[k].0 <= el@[l].0,
                forall|v: int| 0 <= v < numv ==> out_degree(el@, v) < maxe,
                forall|v: int| i <= v < numv ==> out_degree(el@, v) == 0,
            decreases numv - i,
        {
            let num_e: usize = random_below(&mut rng, maxe);
            let mut dsts: Vec<usize> = Vec::new();
            let mut n: usize = 0;
            while n < num_e
                invariant
                    numv > 0,
                    n <= num_e,
                    dsts@.len() == n,
                    forall|k: int| 0 <= k < n ==> dsts@[k] < numv,
                decreases num_e - n,
            {
                let dst: usize = random_below(&mut rng, numv);
                dsts.push(dst);
                n += 1;
            }
            let ghost before = el@;
            push_fan(&mut el, i, &dsts);
            proof {
                let added = fan(i, dsts@);
                assert forall|k: int| 0 <= k < el@.len() implies (#[trigger] el@[k]).0 <= i && el@[k].0
                    < numv && el@[k].1 < numv by {
                    if k < before.len() {
                        assert(el@[k] == before[k]);
                    } else {
                        assert(el@[k] == added[k - before.len()]);
                    }
                }
                assert forall|k: int, l: int| 0 <= k <= l < el@.len() implies el@[k].0 <= el@[l].0 by {
                    if l < before.len() {
                        assert(el@[k] == before[k] && el@[l] == before[l]);
                    } else {
                        assert(el@[l] == added[l - before.len()]);
                    }
                }
                assert forall|v: int| 0 <= v < numv implies out_degree(el@, v) == out_degree(before, v)
                    + if v == i {
                    num_e as int
                } else {
                    0int
                } by {
                    lemma_dests_concat(before, added, v);
                    lemma_dests_fan(i, dsts@, v);
                }
            }
            i += 1;
        }
        el
    }
}

} // verus!
