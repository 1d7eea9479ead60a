use vstd::prelude::*;
use rayon::iter::{IndexedParallelIterator, IntoParallelIterator, ParallelIterator};
use rayon::iter::IntoParallelRefMutIterator;
use rayon::slice::{ParallelSlice, ParallelSliceMut};
use crate::edges::{counts_of, count_sources};
use crate::fast_csr::FastCSR;
use crate::csr::CSR;

verus! {

/// The `row`-th chunk of `s` when it is cut into chunks of `chunksz` items,
/// the last of which may be shorter.
pub open spec fn chunk_of<T>(s: Seq<T>, chunksz: int, row: int) -> Seq<T> {
    s.subrange(
        row * chunksz,
        if (row + 1) * chunksz <= s.len() {
            (row + 1) * chunksz
        } else {
            s.len() as int
        },
    )
}

/// The number of chunks of `chunksz` items that `n` items are cut into.
pub open spec fn chunk_count(n: int, chunksz: int) -> int {
    (n + chunksz - 1) / chunksz
}

/// The number of items in the first `rows` chunks of `chunksz` items, when
/// `n` items are cut into chunks.
pub open spec fn covered(n: int, chunksz: int, rows: int) -> int {
    if rows * chunksz <= n {
        rows * chunksz
    } else {
        n
    }
}

/// rayon's `par_chunks(..).map(..).collect()` over the edge list: the list is
/// cut into chunks of `chunksz` edges, `count_sources` is called once for
/// every chunk, on worker threads, and the counts are collected in the order
/// of the chunks. The contract says that there is one result for each chunk
/// and that each is as `count_sources` returns it for its chunk.
#[verifier::external_body]
pub(crate) fn par_count_chunks(el: &Vec<(usize, usize)>, chunksz: usize, numv: usize) -> (parts: Vec<
    Vec<usize>,
>)
    requires
        chunksz > 0,
        forall|k: int| 0 <= k < el@.len() ==> (#[trigger] el@[k]).0 < numv,
    ensures
        parts@.len() == chunk_count(el@.len() as int, chunksz as int),
        forall|row: int|
            0 <= row < parts@.len() ==> counts_of(
                (#[trigger] parts@[row])@,
                chunk_of(el@, chunksz as int, row),
                numv as int,
            ),
{
    el.par_chunks(chunksz).map(|chunk| count_sources(chunk, numv)).collect()
}

/// rayon's `par_chunks_mut(..).enumerate().for_each(..)` over the output
/// buffer: the buffer is cut into chunks of `chunksz` slots and `scan_row` is
/// called once for every chunk, with the chunk's index, on worker threads. The
/// contract says that every chunk then is as `scan_row` leaves it, and that
/// the buffer keeps its length.
#[verifier::external_body]
pub(crate) fn par_scan_rows<P: Send + Sync, F: Fn(usize, &[usize]) -> P + Sync>(
    g: &CSR<P>,
    chunksz: usize,
    f: &F,
    out: &mut Vec<P>,
)
    requires
        chunksz > 0,
        g.wf(),
        old(out)@.len() == g.num_vertices(),
        g.scan_allowed(*f),
    ensures
        final(out)@.len() == old(out)@.len(),
        forall|row: int|
            0 <= row && row * chunksz < final(out)@.len() ==> g.row_scanned(
                *f,
                row * chunksz,
                #[trigger] chunk_of(final(out)@, chunksz as int, row),
            ),
{
    out.par_chunks_mut(chunksz).enumerate().for_each(|(row, chunk)| g.scan_row(row, chunksz, chunk, f));
}

/// rayon's `into_par_iter().for_each(..)` over the range from zero to `n`:
/// `f` is called once for every index below `n`, on worker threads, and the
/// call returns when every task has ended. Such a task leaves its traces
/// behind locks or nowhere, so the contract says nothing of them.
#[verifier::external_body]
pub(crate) fn par_for_each_index<F: Fn(usize) -> () + Sync + Send>(n: usize, f: F)
    requires
        forall|i: usize| i < n ==> call_requires(f, (i,)),
{
    (0..n).into_par_iter().for_each(f);
}

/// rayon's `par_iter_mut().enumerate().for_each(..)` over the output slots:
/// `scan_into` is called once for every slot, with the slot's index as the
/// vertex, on worker threads. The contract says that every slot then is as
/// `scan_into` leaves it, and that the slice keeps its length.
#[verifier::external_body]
pub(crate) fn par_fill_props<P: Send, F: Fn(usize, &[usize]) -> P + Sync>(
    g: &FastCSR<'_>,
    f: &F,
    prop: &mut [P],
)
    requires
        g.valid(),
        old(prop)@.len() <= g.num_vertices(),
        g.scan_allowed(*f),
    ensures
        final(prop)@.len() == old(prop)@.len(),
        forall|v: int| 0 <= v < final(prop)@.len() ==> g.scanned(*f, v, #[trigger] final(prop)@[v]),
{
    prop.par_iter_mut().enumerate().for_each(|(v, p)| g.scan_into(v, p, f));
}

/// rayon's `into_par_iter().map(..).collect()` over the range from zero to
/// `n`: `f` is called once for every index below `n`, on worker threads, and
/// what it returns is collected in the order of the indices.
#[verifier::external_body]
pub(crate) fn par_map_index<T: Send, F: Fn(usize) -> T + Sync + Send>(n: usize, f: F) -> (out: Vec<T>)
    requires
        forall|i: usize| i < n ==> call_requires(f, (i,)),
    ensures
        out@.len() == n,
        forall|i: int| 0 <= i < n ==> call_ensures(f, (i as usize,), #[trigger] out@[i]),
{
    (0..n).into_par_iter().map(f).collect()
}

} // verus!
