//! Trusted declarations for `bit_vec::BitVec`, the packed bit vector backing
//! every validity bitmap. Each wrapper relies on one `BitVec` method, read
//! against the crate's source; `bits_of` names the bits a value holds.

use vstd::prelude::*;

use bit_vec::BitVec;

verus! {

#[verifier::external_type_specification]
#[verifier::external_body]
#[verifier::reject_recursive_types(B)]
pub struct ExBitVec<B>(BitVec<B>);

/// The bits a `BitVec` holds, in order.
pub uninterp spec fn bits_of(b: BitVec) -> Seq<bool>;


/// Relies on `BitVec::new`: an empty bit vector.
#[verifier::external_body]
pub(crate) fn bv_new() -> (r: BitVec)
    ensures
        bits_of(r) == Seq::<bool>::empty(),
{
    BitVec::new()
}

/// Relies on `BitVec::from_elem`: `len` bits, each set to `bit`.
#[verifier::external_body]
pub(crate) fn bv_from_elem(len: usize, bit: bool) -> (r: BitVec)
    ensures
        bits_of(r) == Seq::new(len as nat, |i: int| bit),
{
    BitVec::from_elem(len, bit)
}

/// Relies on `BitVec::len`: the number of bits held.
#[verifier::external_body]
pub(crate) fn bv_len(b: &BitVec) -> (r: usize)
    ensures
        r == bits_of(*b).len(),
{
    b.len()
}

/// Relies on `BitVec::get`: the bit at `i`, or nothing past the end.
#[verifier::external_body]
pub(crate) fn bv_get(b: &BitVec, i: usize) -> (r: Option<bool>)
    ensures
        r == (if i < bits_of(*b).len() {
            Some(bits_of(*b)[i as int])
        } else {
            None::<bool>
        }),
{
    b.get(i)
}

/// Relies on `BitVec::push`: appends one bit; the method panics when the
/// length would overflow `usize`.
#[verifier::external_body]
pub(crate) fn bv_push(b: &mut BitVec, x: bool)
    requires
        bits_of(*old(b)).len() < usize::MAX,
    ensures
        bits_of(*final(b)) == bits_of(*old(b)).push(x),
{
    b.push(x)
}

} // verus!
