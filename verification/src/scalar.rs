//! Real-valued settings of a record, carried and never computed with.

use vstd::prelude::*;

verus! {

/// A single-precision number held as its IEEE 754 bit pattern. Records
/// carry speeds, lifetimes and probabilities through the loader in this
/// form; whoever reads one turns the bits back into a number.
#[derive(Clone, Copy, Debug, PartialEq, Eq, Structural)]
pub struct Scalar {
    pub bits: u32,
}

impl Scalar {
    /// The number with the given bit pattern.
    pub fn from_bits(bits: u32) -> (s: Self)
        ensures
            s.bits == bits,
    {
        Scalar { bits }
    }

    /// The bit pattern of the number.
    pub fn to_bits(&self) -> (bits: u32)
        ensures
            bits == self.bits,
    {
        self.bits
    }
}

} // verus!
