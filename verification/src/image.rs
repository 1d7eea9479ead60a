use vstd::prelude::*;
use vstd::bytes::{spec_u64_from_le_bytes, spec_u64_to_le_bytes, lemma_auto_spec_u64_to_from_le_bytes};

verus! {

/// The little-endian word of eight bytes that starts at byte `pos` of `b`.
pub open spec fn word_at(b: Seq<u8>, pos: int) -> u64 {
    spec_u64_from_le_bytes(b.subrange(pos, pos + 8))
}

/// The words of `ws` as bytes, eight for each word, little end first.
pub open spec fn le_words(ws: Seq<usize>) -> Seq<u8> {
    Seq::new(8 * ws.len(), |k: int| spec_u64_to_le_bytes(ws[k / 8] as u64)[k % 8])
}

/// The binary image of a graph: the number of vertices, the number of edges,
/// one word for each offset and one word for each destination.
pub open spec fn csr_image(v: usize, e: usize, offsets: Seq<usize>, neighbors: Seq<usize>) -> Seq<u8> {
    spec_u64_to_le_bytes(v as u64) + spec_u64_to_le_bytes(e as u64) + le_words(offsets) + le_words(
        neighbors,
    )
}

/// The number of vertices that the header of `b` gives.
pub open spec fn image_v(b: Seq<u8>) -> int {
    word_at(b, 0) as int
}

/// The number of edges that the header of `b` gives.
pub open spec fn image_e(b: Seq<u8>) -> int {
    word_at(b, 8) as int
}

/// The offset of vertex `i` in the image `b`.
pub open spec fn image_offset(b: Seq<u8>, i: int) -> int {
    word_at(b, 16 + 8 * i) as int
}

/// The destination in slot `j` of the image `b`.
pub open spec fn image_neighbor(b: Seq<u8>, j: int) -> int {
    word_at(b, 16 + 8 * image_v(b) + 8 * j) as int
}

/// Where the group of vertex `i` ends in the image `b`: at the next vertex's
/// offset, or for the last vertex at the number of edges.
pub open spec fn image_range_end(b: Seq<u8>, i: int) -> int {
    if i + 1 < image_v(b) {
        image_offset(b, i + 1)
    } else {
        image_e(b)
    }
}

/// `b` holds a header and as many offsets and destinations as the header
/// says.
pub open spec fn image_complete(b: Seq<u8>) -> bool {
    b.len() >= 16 && 16 + 8 * image_v(b) + 8 * image_e(b) <= b.len()
}

/// `b` is complete, every vertex's group is a range of the destination
/// slots, and every destination names a vertex.
pub open spec fn image_valid(b: Seq<u8>) -> bool {
    &&& image_complete(b)
    &&& forall|i: int|
        0 <= i < image_v(b) ==> #[trigger] image_offset(b, i) <= image_range_end(b, i) <= image_e(b)
    &&& forall|j: int| 0 <= j < image_e(b) ==> #[trigger] image_neighbor(b, j) < image_v(b)
}

/// The destinations of the edges that leave vertex `i` in the image `b`, in
/// storage order.
pub open spec fn image_neighbors_of(b: Seq<u8>, i: int) -> Seq<usize> {
    Seq::new(
        (image_range_end(b, i) - image_offset(b, i)) as nat,
        |k: int| image_neighbor(b, image_offset(b, i) + k) as usize,
    )
}

/// Appending one word to a sequence of words appends its eight bytes.
pub proof fn lemma_le_words_push(ws: Seq<usize>, w: usize)
    ensures
        le_words(ws.push(w)) == le_words(ws) + spec_u64_to_le_bytes(w as u64),
        le_words(ws).len() == 8 * ws.len(),
{
    lemma_auto_spec_u64_to_from_le_bytes();
    assert(le_words(ws.push(w)) =~= le_words(ws) + spec_u64_to_le_bytes(w as u64));
}

/// The word read at the place of the `i`-th word of an encoded sequence is
/// that word, whatever bytes stand before and after the sequence.
pub proof fn lemma_word_at_le_words(before: Seq<u8>, ws: Seq<usize>, after: Seq<u8>, i: int)
    requires
        0 <= i < ws.len(),
    ensures
        word_at(before + le_words(ws) + after, before.len() + 8 * i) == ws[i],
{
    lemma_auto_spec_u64_to_from_le_bytes();
    let b = before + le_words(ws) + after;
    let pos = before.len() + 8 * i;
    assert(b.subrange(pos, pos + 8) =~= spec_u64_to_le_bytes(ws[i] as u64)) by {
        let word = spec_u64_to_le_bytes(ws[i] as u64);
        assert forall|k: int| 0 <= k < 8 implies b.subrange(pos, pos + 8)[k] == #[trigger] word[k] by {
            assert(b[pos + k] == le_words(ws)[8 * i + k]);
            assert((8 * i + k) / 8 == i);
            assert((8 * i + k) % 8 == k);
        }
    }
}

/// The image of a graph is read back as the graph: the header gives the two
/// counts, and each offset and destination is read at its place.
pub proof fn lemma_csr_image_reads(v: usize, e: usize, offsets: Seq<usize>, neighbors: Seq<usize>)
    requires
        offsets.len() == v,
        neighbors.len() == e,
    ensures
        csr_image(v, e, offsets, neighbors).len() == 16 + 8 * v + 8 * e,
        image_v(csr_image(v, e, offsets, neighbors)) == v,
        image_e(csr_image(v, e, offsets, neighbors)) == e,
        forall|i: int|
            0 <= i < v ==> #[trigger] image_offset(csr_image(v, e, offsets, neighbors), i) == offsets[i],
        forall|j: int|
            0 <= j < e ==> #[trigger] image_neighbor(csr_image(v, e, offsets, neighbors), j)
                == neighbors[j],
{
    lemma_auto_spec_u64_to_from_le_bytes();
    let hv = spec_u64_to_le_bytes(v as u64);
    let he = spec_u64_to_le_bytes(e as u64);
    let b = csr_image(v, e, offsets, neighbors);
    assert(b.subrange(0, 8) =~= hv);
    assert(b.subrange(8, 16) =~= he);
    assert forall|i: int| 0 <= i < v implies #[trigger] image_offset(b, i) == offsets[i] by {
        lemma_word_at_le_words(hv + he, offsets, le_words(neighbors), i);
    }
    assert forall|j: int| 0 <= j < e implies #[trigger] image_neighbor(b, j) == neighbors[j] by {
        lemma_word_at_le_words(hv + he + le_words(offsets), neighbors, Seq::<u8>::empty(), j);
        assert(hv + he + le_words(offsets) + le_words(neighbors) + Seq::<u8>::empty() =~= b);
    }
}

} // verus!
