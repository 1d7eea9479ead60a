use vstd::prelude::*;
use bit_vec::BitVec;

verus! {

/// `bit_vec::BitVec`, a growable vector of bits. Nothing of its inside is
/// known here: the contracts below speak of the bits it holds.
#[verifier::external_type_specification]
#[verifier::external_body]
#[verifier::reject_recursive_types(B)]
pub struct ExBitVec<B>(BitVec<B>);

/// The bits that a bit vector holds, by index.
pub uninterp spec fn bits(b: BitVec<u32>) -> Seq<bool>;

/// `BitVec::from_elem`: a bit vector of `len` bits, each equal to `bit`.
#[verifier::external_body]
pub(crate) fn bitvec_from_elem(len: usize, bit: bool) -> (b: BitVec<u32>)
    ensures
        bits(b) == Seq::new(len as nat, |i: int| bit),
{
    BitVec::from_elem(len, bit)
}

/// `BitVec::set`: bit `i` becomes `x` and every other bit stays. The method
/// panics on an index past the end, which the precondition leaves out.
#[verifier::external_body]
pub(crate) fn bitvec_set(b: &mut BitVec<u32>, i: usize, x: bool)
    requires
        i < bits(*old(b)).len(),
    ensures
        bits(*final(b)) == bits(*old(b)).update(i as int, x),
{
    b.set(i, x)
}

/// `BitVec::get`: bit `i`, or `None` for an index past the end.
#[verifier::external_body]
pub(crate) fn bitvec_get(b: &BitVec<u32>, i: usize) -> (r: Option<bool>)
    ensures
        r == if i < bits(*b).len() {
            Some(bits(*b)[i as int])
        } else {
            None
        },
{
    b.get(i)
}

} // verus!
