//! Keeps the set of integer types that the random sequences support closed,
//! so that every implementation of `FixedWidth` is one that was verified.

use vstd::prelude::*;

verus! {

/// Implemented for the supported integer types and for nothing else.
pub trait Sealed {

}

impl Sealed for u8 {

}

impl Sealed for u16 {

}

impl Sealed for u32 {

}

impl Sealed for u64 {

}

} // verus!
