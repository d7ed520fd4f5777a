use vstd::prelude::*;

use crate::sealed::Sealed;

verus! {

/// The word types a generator may return: `u32` or `u64`.
///
/// Every output widens losslessly to a `u64`, which is how the framework
/// receives it.
pub trait PrngOutput: Copy + Sealed + Sized {
    /// The output as an unsigned 64-bit value.
    spec fn spec_widen(self) -> u64;

    /// The width of the output type in bits.
    spec fn spec_bits() -> u32;

    /// An output lies below 2 to its width, which is 32 or 64.
    proof fn lemma_widen_fits(v: Self)
        ensures
            Self::spec_bits() == 32 || Self::spec_bits() == 64,
            Self::spec_bits() == 32 ==> v.spec_widen() < 0x1_0000_0000u64,
    ;

    /// Widens the output to `u64` without changing its value.
    fn to_u64(self) -> (r: u64)
        ensures
            r == self.spec_widen(),
    ;

    /// Builds an output from a 32-bit value without changing it.
    fn from_u32(v: u32) -> (r: Self)
        ensures
            r.spec_widen() == v,
    ;

    /// The width of the output type in bits (32 or 64).
    fn bits() -> (r: u32)
        ensures
            r == Self::spec_bits(),
            r == 32 || r == 64,
    ;
}

impl PrngOutput for u32 {
    open spec fn spec_widen(self) -> u64 {
        self as u64
    }

    open spec fn spec_bits() -> u32 {
        32
    }

    proof fn lemma_widen_fits(v: Self) {
    }

    fn to_u64(self) -> (r: u64) {
        self as u64
    }

    fn from_u32(v: u32) -> (r: Self) {
        v
    }

    fn bits() -> (r: u32) {
        32
    }
}

impl PrngOutput for u64 {
    open spec fn spec_widen(self) -> u64 {
        self
    }

    open spec fn spec_bits() -> u32 {
        64
    }

    proof fn lemma_widen_fits(v: Self) {
    }

    fn to_u64(self) -> (r: u64) {
        self
    }

    fn from_u32(v: u32) -> (r: Self) {
        v as u64
    }

    fn bits() -> (r: u32) {
        64
    }
}

} // verus!
