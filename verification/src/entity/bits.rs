//! The growable bit vector of the `bitvec` crate, with what this library
//! relies on of it.

use bitvec::vec::BitVec;
use vstd::prelude::*;

verus! {

/// A bit vector of the `bitvec` crate.
#[verifier::external_body]
pub struct Bits {
    inner: BitVec,
}

/// The bits that a bit vector holds, first to last.
pub uninterp spec fn bits(v: Bits) -> Seq<bool>;

/// More bits than this no bit vector holds: an eighth of the largest `usize`.
pub open spec fn max_bits() -> nat {
    (usize::MAX / 8) as nat
}

/// `BitVec::new`: a bit vector without bits.
#[verifier::external_body]
pub(crate) fn bits_new() -> (v: Bits)
    ensures
        bits(v) == Seq::<bool>::empty(),
{
    Bits { inner: BitVec::new() }
}

/// `BitVec::len`: the number of bits.
#[verifier::external_body]
pub(crate) fn bits_len(v: &Bits) -> (n: usize)
    ensures
        n == bits(*v).len(),
{
    v.inner.len()
}

/// `BitVec::is_empty`: whether there is no bit.
#[verifier::external_body]
pub(crate) fn bits_is_empty(v: &Bits) -> (b: bool)
    ensures
        b == (bits(*v).len() == 0),
{
    v.inner.is_empty()
}

/// `BitSlice::get` with a single index: the bit at `index`, or nothing
/// where the vector is shorter.
#[verifier::external_body]
pub(crate) fn bits_get(v: &Bits, index: usize) -> (bit: Option<bool>)
    ensures
        bit == if index < bits(*v).len() {
            Some(bits(*v)[index as int])
        } else {
            None
        },
{
    v.inner.get(index).as_deref().copied()
}

/// `BitSlice::last`: the last bit, or nothing where the vector is empty.
#[verifier::external_body]
pub(crate) fn bits_last(v: &Bits) -> (bit: Option<bool>)
    ensures
        bit == if bits(*v).len() > 0 {
            Some(bits(*v).last())
        } else {
            None
        },
{
    v.inner.last().as_deref().copied()
}

/// `BitSlice::set`: writes `value` into the bit at `index`. It panics where
/// `index` is not below the length.
#[verifier::external_body]
pub(crate) fn bits_set(v: &mut Bits, index: usize, value: bool)
    requires
        index < bits(*old(v)).len(),
    ensures
        bits(*final(v)) == bits(*old(v)).update(index as int, value),
{
    v.inner.set(index, value)
}

/// `BitVec::pop`: takes the last bit off and returns it, or returns nothing
/// and changes nothing where the vector is empty.
#[verifier::external_body]
pub(crate) fn bits_pop(v: &mut Bits) -> (bit: Option<bool>)
    ensures
        bits(*old(v)).len() == 0 ==> bit is None && bits(*final(v)) == bits(*old(v)),
        bits(*old(v)).len() > 0 ==> bit == Some(bits(*old(v)).last()) && bits(*final(v)) == bits(
            *old(v),
        ).drop_last(),
{
    v.inner.pop()
}

/// `BitVec::resize`: cuts the vector down to `new_len` bits, or fills it up
/// to `new_len` bits with `value`. It panics where `new_len` is more than a
/// bit vector can hold.
#[verifier::external_body]
pub(crate) fn bits_resize(v: &mut Bits, new_len: usize, value: bool)
    requires
        new_len <= max_bits(),
    ensures
        bits(*final(v)).len() == new_len,
        forall|i: int|
            0 <= i < new_len ==> #[trigger] bits(*final(v))[i] == if i < bits(*old(v)).len() {
                bits(*old(v))[i]
            } else {
                value
            },
{
    v.inner.resize(new_len, value)
}

} // verus!
