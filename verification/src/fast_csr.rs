use vstd::prelude::*;
use vstd::bytes::u64_from_le_bytes;
use vstd::slice::slice_subrange;
use crate::image::{
    word_at, image_v, image_e, image_offset, image_neighbor, image_range_end, image_complete,
    image_valid, image_neighbors_of,
};
use crate::parallel::{par_for_each_index, par_fill_props};
use crate::words::bytes_as_words;

verus! {

/// Why a byte image cannot be opened as a graph.
#[derive(Debug, Clone, Copy, PartialEq, Eq)]
pub enum ImageError {
    /// The image is shorter than the header.
    HeaderTooShort,
    /// The image is shorter than the header, the offsets and the destinations
    /// that the header announces.
    Truncated,
}

/// A read-only graph in compressed sparse row form that lives in a byte image:
/// nothing is copied out of the image when it is opened, and every query
/// decodes the words it needs.
pub struct FastCSR<'a> {
    v: usize,
    e: usize,
    obase: usize,
    nbase: usize,
    raw: &'a [u8],
}

impl<'a> FastCSR<'a> {
    /// The bytes of the image.
    pub closed spec fn bytes(&self) -> Seq<u8> {
        self.raw@
    }

    /// The number of vertices.
    pub closed spec fn num_vertices(&self) -> nat {
        self.v as nat
    }

    /// The number of edges.
    pub closed spec fn num_edges(&self) -> nat {
        self.e as nat
    }

    /// The two regions start where the layout puts them.
    pub closed spec fn bases_ok(&self) -> bool {
        self.obase == 16 && self.nbase == 16 + 8 * self.v
    }

    /// The image is complete and the counts are those of its header.
    pub open spec fn wf(&self) -> bool {
        &&& image_complete(self.bytes())
        &&& self.num_vertices() == image_v(self.bytes())
        &&& self.num_edges() == image_e(self.bytes())
        &&& self.bases_ok()
    }

    /// The image is well formed and describes a graph: every group is a range
    /// of the destination slots and every destination names a vertex.
    pub open spec fn valid(&self) -> bool {
        self.wf() && image_valid(self.bytes())
    }

    /// The destinations of the edges that leave `i`, in storage order.
    pub open spec fn neighbors_of(&self, i: int) -> Seq<usize> {
        image_neighbors_of(self.bytes(), i)
    }

    /// The image holds an edge from `a` to `b`.
    pub open spec fn has_edge(&self, a: usize, b: usize) -> bool {
        &&& a < self.num_vertices()
        &&& exists|j: int|
            image_offset(self.bytes(), a as int) <= j < image_range_end(self.bytes(), a as int)
                && #[trigger] image_neighbor(self.bytes(), j) == b
    }

    /// The number of vertices.
    pub fn getv(&self) -> (r: usize)
        ensures
            r == self.num_vertices(),
    {
        self.v
    }

    /// The number of edges.
    pub fn gete(&self) -> (r: usize)
        ensures
            r == self.num_edges(),
    {
        self.e
    }

    /// Opens a byte image. Only the header is read: the image must hold it,
    /// and must be long enough for the offsets and destinations that it
    /// announces.
    pub fn new(raw: &'a [u8]) -> (r: Result<FastCSR<'a>, ImageError>)
        ensures
            match r {
                Ok(g) => image_complete(raw@) && g.wf() && g.bytes() == raw@,
                Err(ImageError::HeaderTooShort) => raw@.len() < 16,
                Err(ImageError::Truncated) => raw@.len() >= 16 && !image_complete(raw@),
            },
    {
        let len: usize = raw.len();
        if len < 16 {
            return Err(ImageError::HeaderTooShort);
        }
        let v64: u64 = u64_from_le_bytes(slice_subrange(raw, 0, 8));
        let e64: u64 = u64_from_le_bytes(slice_subrange(raw, 8, 16));
        let words: usize = (len - 16) / 8;
        if v64 > words as u64 {
            return Err(ImageError::Truncated);
        }
        let v: usize = v64 as usize;
        if e64 > (words - v) as u64 {
            return Err(ImageError::Truncated);
        }
        let e: usize = e64 as usize;
        Ok(FastCSR { v, e, obase: 16, nbase: 16 + 8 * v, raw })
    }

    /// The word that starts at byte `pos` of the image.
    fn word(&self, pos: usize) -> (w: u64)
        requires
            pos + 8 <= self.bytes().len(),
        ensures
            w == word_at(self.bytes(), pos as int),
    {
        // The length of a slice fits a machine word, and so does `pos + 8`.
        let _len: usize = self.raw.len();
        u64_from_le_bytes(slice_subrange(self.raw, pos, pos + 8))
    }

    /// The length of the image, which fits a machine word.
    fn image_len(&self) -> (len: usize)
        ensures
            len == self.bytes().len(),
    {
        self.raw.len()
    }

    /// Checks the whole image: whether every group is a range of the
    /// destination slots and every destination names a vertex.
    pub fn is_valid(&self) -> (r: bool)
        requires
            self.wf(),
        ensures
            r == self.valid(),
    {
        let ghost b = self.bytes();
        let len: usize = self.image_len();
        let mut i: usize = 0;
        while i < self.v
            invariant
                self.wf(),
                len == b.len(),
                b == self.bytes(),
                i <= self.v,
                forall|k: int|
                    0 <= k < i ==> #[trigger] image_offset(b, k) <= image_range_end(b, k) <= image_e(b),
            decreases self.v - i,
        {
            let start: u64 = self.word(self.obase + 8 * i);
            let end: u64 = if i + 1 < self.v {
                self.word(self.obase + 8 * (i + 1))
            } else {
                self.e as u64
            };
            if start > end || end > self.e as u64 {
                proof {
                    assert(!(image_offset(b, i as int) <= image_range_end(b, i as int) <= image_e(b)));
                }
                return false;
            }
            i += 1;
        }
        let mut j: usize = 0;
        while j < self.e
            invariant
                self.wf(),
                len == b.len(),
                b == self.bytes(),
                j <= self.e,
                forall|k: int| 0 <= k < j ==> #[trigger] image_neighbor(b, k) < image_v(b),
            decreases self.e - j,
        {
            let n: u64 = self.word(self.nbase + 8 * j);
            if n >= self.v as u64 {
                proof {
                    assert(!(image_neighbor(b, j as int) < image_v(b)));
                }
                return false;
            }
            j += 1;
        }
        true
    }

    /// The offset of vertex `i`: where its group starts among the destination
    /// slots.
    pub fn offset(&self, i: usize) -> (r: usize)
        requires
            self.valid(),
            i < self.num_vertices(),
        ensures
            r == image_offset(self.bytes(), i as int),
    {
        let _len: usize = self.image_len();
        let w: u64 = self.word(self.obase + 8 * i);
        w as usize
    }

    /// The half-open range of destination slots that holds the edges leaving
    /// `v`.
    fn vtx_offset_range(&self, v: usize) -> (r: (usize, usize))
        requires
            self.valid(),
            v < self.num_vertices(),
        ensures
            r.0 == image_offset(self.bytes(), v as int),
            r.1 == image_range_end(self.bytes(), v as int),
            r.0 <= r.1 <= self.num_edges(),
    {
        let start: usize = self.offset(v);
        let end: usize = if v == self.v - 1 {
            self.e
        } else {
            self.offset(v + 1)
        };
        (start, end)
    }

    /// The destination in slot `j`.
    fn neighbor_at(&self, j: usize) -> (r: usize)
        requires
            self.valid(),
            j < self.num_edges(),
        ensures
            r == image_neighbor(self.bytes(), j as int),
            r < self.num_vertices(),
    {
        let _len: usize = self.image_len();
        let w: u64 = self.word(self.nbase + 8 * j);
        w as usize
    }

    /// The destinations of the edges that leave `i`, decoded from the image
    /// in storage order.
    pub fn neighbors(&self, i: usize) -> (r: Vec<usize>)
        requires
            self.valid(),
            i < self.num_vertices(),
        ensures
            r@ == self.neighbors_of(i as int),
    {
        let (n0, nn) = self.vtx_offset_range(i);
        let mut out: Vec<usize> = Vec::new();
        let mut j: usize = n0;
        while j < nn
            invariant
                self.valid(),
                n0 <= j <= nn <= self.num_edges(),
                out@.len() == j - n0,
                forall|k: int| 0 <= k < out@.len() ==> out@[k] == image_neighbor(self.bytes(), n0 + k),
            decreases nn - j,
        {
            out.push(self.neighbor_at(j));
            j += 1;
        }
        proof {
            assert(out@ =~= self.neighbors_of(i as int));
        }
        out
    }

    /// The destinations of the edges that leave `i` as a part of `words`,
    /// where `words` holds at its place every destination of `i` as the image
    /// does; `None` where `words` is too short or differs from the image in
    /// one of them.
    pub fn view_in_words<'w>(&self, i: usize, words: &'w [usize]) -> (r: Option<&'w [usize]>)
        requires
            self.valid(),
            i < self.num_vertices(),
        ensures
            r is Some <==> {
                &&& words@.len() >= image_range_end(self.bytes(), i as int)
                &&& forall|k: int|
                    image_offset(self.bytes(), i as int) <= k < image_range_end(self.bytes(), i as int)
                        ==> #[trigger] words@[k] == image_neighbor(self.bytes(), k)
            },
            r matches Some(ns) ==> ns@ == self.neighbors_of(i as int),
    {
        let (n0, nn) = self.vtx_offset_range(i);
        if words.len() < nn {
            return None;
        }
        let mut j: usize = n0;
        while j < nn
            invariant
                self.valid(),
                i < self.num_vertices(),
                n0 == image_offset(self.bytes(), i as int),
                nn == image_range_end(self.bytes(), i as int),
                n0 <= j <= nn <= self.num_edges(),
                nn <= words@.len(),
                forall|k: int| n0 <= k < j ==> #[trigger] words@[k] == image_neighbor(self.bytes(), k),
            decreases nn - j,
        {
            let stored: usize = self.neighbor_at(j);
            if words[j] != stored {
                proof {
                    assert(words@[j as int] != image_neighbor(self.bytes(), j as int));
                }
                return None;
            }
            j += 1;
        }
        let view = slice_subrange(words, n0, nn);
        proof {
            assert(view@ =~= self.neighbors_of(i as int));
        }
        Some(view)
    }

    /// The destinations of the edges that leave `i` as a view of the image's
    /// own memory, without a copy. This needs the image to lie in memory so
    /// that it can be read as machine words, and those words to be the
    /// image's little-endian words of eight bytes; elsewhere the result is
    /// `None`, and `neighbors` gives the same destinations as a copy. An
    /// image without edges has no words to read, so there the view is always
    /// given.
    pub fn neighbors_view(&self, i: usize) -> (r: Option<&'a [usize]>)
        requires
            self.valid(),
            i < self.num_vertices(),
        ensures
            r matches Some(ns) ==> ns@ == self.neighbors_of(i as int),
            self.num_edges() == 0 ==> r is Some,
    {
        let _len: usize = self.image_len();
        let region: &'a [u8] = slice_subrange(self.raw, self.nbase, self.nbase + 8 * self.e);
        match bytes_as_words(region) {
            Ok(words) => self.view_in_words(i, words),
            Err(_) => None,
        }
    }
}

impl<'a> FastCSR<'a> {
    /// `f` may be called on every vertex with the slice of its neighbours.
    pub open spec fn scan_allowed<P, F: Fn(usize, &[usize]) -> P>(&self, f: F) -> bool {
        forall|v: usize, ns: &[usize]|
            v < self.num_vertices() && ns@ == self.neighbors_of(v as int) ==> call_requires(f, (v, ns))
    }

    /// `out` is what `f` returned for vertex `v` and the slice of its
    /// neighbours.
    pub open spec fn scanned<P, F: Fn(usize, &[usize]) -> P>(&self, f: F, v: int, out: P) -> bool {
        exists|ns: &[usize]| ns@ == self.neighbors_of(v) && #[trigger] call_ensures(f, (v as usize, ns), out)
    }

    /// One vertex's step of a scan: `slot` gets what `f` returns for `v` and
    /// its neighbours, which `f` sees as a view of the image where that can
    /// be had, and as a copy elsewhere.
    pub fn scan_into<P, F: Fn(usize, &[usize]) -> P>(&self, v: usize, slot: &mut P, f: &F)
        requires
            self.valid(),
            v < self.num_vertices(),
            self.scan_allowed(*f),
        ensures
            self.scanned(*f, v as int, *final(slot)),
    {
        let val = match self.neighbors_view(v) {
            Some(view) => {
                let val = f(v, view);
                proof {
                    assert(view@ == self.neighbors_of(v as int) && call_ensures(
                        *f,
                        ((v as int) as usize, view),
                        val,
                    ));
                }
                val
            },
            None => {
                let ns: Vec<usize> = self.neighbors(v);
                let view: &[usize] = ns.as_slice();
                let val = f(v, view);
                proof {
                    assert(view@ == self.neighbors_of(v as int) && call_ensures(
                        *f,
                        ((v as int) as usize, view),
                        val,
                    ));
                }
                val
            },
        };
        proof {
            assert(self.scanned(*f, v as int, val));
        }
        *slot = val;
    }

    /// The pull scan into a caller's array: slot `v` of `prop` becomes what
    /// `f` returns for vertex `v` and the slice of its neighbours, each slot
    /// as a task of its own.
    pub fn neighbor_scan_prop<P: Send, F: Fn(usize, &[usize]) -> P + Sync>(&self, f: F, prop: &mut [P])
        requires
            self.valid(),
            old(prop)@.len() <= self.num_vertices(),
            self.scan_allowed(f),
        ensures
            final(prop)@.len() == old(prop)@.len(),
            forall|v: int| 0 <= v < final(prop)@.len() ==> self.scanned(f, v, #[trigger] final(prop)@[v]),
    {
        par_fill_props(self, &f, prop);
    }

    /// Calls `f` on every vertex with the slice of its neighbours, each call
    /// as a task of its own. The slice is a view of the image where that can
    /// be had, and a copy elsewhere.
    pub fn neighbor_scan<F: Fn(usize, &[usize]) -> () + Sync>(&self, f: F)
        requires
            self.valid(),
            self.scan_allowed(f),
    {
        let fr = &f;
        let step = |v: usize| -> ()
            requires
                v < self.num_vertices(),
            {
                match self.neighbors_view(v) {
                    Some(view) => fr(v, view),
                    None => {
                        let ns: Vec<usize> = self.neighbors(v);
                        fr(v, ns.as_slice())
                    },
                }
            };
        par_for_each_index(self.v, step);
    }

    /// Calls `f(source, destination)` for every edge; the edges of one vertex
    /// follow each other in storage order, and each vertex is a task of its
    /// own. `f` need only accept the edges of the graph.
    pub fn read_only_scan<F: Fn(usize, usize) -> () + Sync>(&self, f: F)
        requires
            self.valid(),
            forall|s: usize, d: usize| self.has_edge(s, d) ==> call_requires(f, (s, d)),
    {
        let fr = &f;
        let step = |v: usize| -> ()
            requires
                v < self.num_vertices(),
            { self.scan_edges_of(v, fr) };
        par_for_each_index(self.v, step);
    }

    /// Calls `f(v, destination)` for every edge that leaves `v`, in storage
    /// order. `f` need only accept those edges.
    pub fn scan_edges_of<F: Fn(usize, usize) -> ()>(&self, v: usize, f: &F)
        requires
            self.valid(),
            v < self.num_vertices(),
            forall|d: usize| self.has_edge(v, d) ==> call_requires(*f, (v, d)),
    {
        let (n0, nn) = self.vtx_offset_range(v);
        let mut j: usize = n0;
        while j < nn
            invariant
                self.valid(),
                v < self.num_vertices(),
                n0 == image_offset(self.bytes(), v as int),
                nn == image_range_end(self.bytes(), v as int),
                n0 <= j <= nn <= self.num_edges(),
                forall|d: usize| self.has_edge(v, d) ==> call_requires(*f, (v, d)),
            decreases nn - j,
        {
            let n: usize = self.neighbor_at(j);
            proof {
                assert(image_neighbor(self.bytes(), j as int) == n);
                assert(self.has_edge(v, n));
            }
            f(v, n);
            j += 1;
        }
    }
}

} // verus!
