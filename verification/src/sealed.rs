use vstd::prelude::*;

verus! {

/// Marker that closes [`crate::output::PrngOutput`] to the two machine
/// word types a generator may return.
pub trait Sealed {}

impl Sealed for u32 {}

impl Sealed for u64 {}

} // verus!
