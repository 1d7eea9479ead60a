use vstd::prelude::*;
use byte_slice_cast::AsSliceOf;

verus! {

/// `byte_slice_cast::Error`, which says why bytes cannot be seen as words.
/// Nothing of its inside is known here.
#[verifier::external_type_specification]
#[verifier::external_body]
pub struct ExCastError(byte_slice_cast::Error);

/// `AsSliceOf::as_slice_of::<usize>`: the bytes seen in place as machine
/// words, or an error where their address or their length does not allow it.
/// Whether it succeeds on bytes depends on their address, and what the words
/// hold on the machine's word size and byte order, so the contract says
/// nothing of either. On no bytes at all the call always succeeds.
#[verifier::external_body]
pub(crate) fn bytes_as_words<'a>(bytes: &'a [u8]) -> (r: Result<&'a [usize], byte_slice_cast::Error>)
    ensures
        bytes@.len() == 0 ==> r is Ok,
{
    bytes.as_slice_of::<usize>()
}

} // verus!
