use vstd::prelude::*;

use bitvec::order::{Lsb0, Msb0};
use bitvec::vec::BitVec;

verus! {

// ---------------------------------------------------------------------------
// Boundary bit buffers.
//
// At its boundary the codec speaks bitvec's `BitVec`. Verus cannot take that
// type in a signature, so each ordering is held inside an opaque struct whose
// contents are named by an uninterpreted bit sequence; the wrappers below
// only carry bits across the boundary, in index order, and all logic works on
// `Vec<bool>`.
// ---------------------------------------------------------------------------

/// A `BitVec<u8, Msb0>`: the form descriptor items travel in.
#[verifier::external_body]
pub struct MsbBitVec {
    pub inner: BitVec<u8, Msb0>,
}

/// A `BitVec<u8, Lsb0>`: the form report buffers travel in.
#[verifier::external_body]
pub struct LsbBitVec {
    pub inner: BitVec<u8, Lsb0>,
}

/// The bit sequence a most-significant-bit-first bit-vector holds, in index
/// order.
pub uninterp spec fn msb0_bits(b: MsbBitVec) -> Seq<bool>;

/// The bit sequence a least-significant-bit-first bit-vector holds, in index
/// order.
pub uninterp spec fn lsb0_bits(b: LsbBitVec) -> Seq<bool>;

impl MsbBitVec {
    /// Relies on bitvec's `FromIterator<bool>` for `BitVec`: collecting
    /// booleans yields a bit-vector holding exactly those bits in order.
    #[verifier::external_body]
    pub fn from_bools(bits: &Vec<bool>) -> (r: Self)
        ensures
            msb0_bits(r) == bits@,
    {
        MsbBitVec { inner: bits.iter().copied().collect() }
    }

    /// Relies on bitvec's `BitSlice::iter` and `by_vals`: iterating a
    /// bit-vector yields its bits in index order.
    #[verifier::external_body]
    pub fn to_bools(&self) -> (r: Vec<bool>)
        ensures
            r@ == msb0_bits(*self),
    {
        self.inner.iter().by_vals().collect()
    }
}

impl LsbBitVec {
    /// Relies on bitvec's `FromIterator<bool>` for `BitVec`: collecting
    /// booleans yields a bit-vector holding exactly those bits in order.
    #[verifier::external_body]
    pub fn from_bools(bits: &Vec<bool>) -> (r: Self)
        ensures
            lsb0_bits(r) == bits@,
    {
        LsbBitVec { inner: bits.iter().copied().collect() }
    }

    /// Relies on bitvec's `BitSlice::iter` and `by_vals`: iterating a
    /// bit-vector yields its bits in index order.
    #[verifier::external_body]
    pub fn to_bools(&self) -> (r: Vec<bool>)
        ensures
            r@ == lsb0_bits(*self),
    {
        self.inner.iter().by_vals().collect()
    }
}

} // verus!
