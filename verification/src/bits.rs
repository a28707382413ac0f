//! Bit lengths.

use vstd::prelude::*;

verus! {

/// A length measured in bits.
#[derive(Clone, Copy, Debug, PartialEq, Eq, Structural)]
pub struct BitLength(usize);

impl BitLength {
    /// The length as a natural number of bits.
    pub closed spec fn as_nat(self) -> nat {
        self.0 as nat
    }

    /// A length of `bits` bits.
    pub fn from_usize_bits(bits: usize) -> (r: Self)
        ensures
            r.as_nat() == bits,
    {
        BitLength(bits)
    }

    /// The number of bits.
    pub fn as_usize_bits(&self) -> (bits: usize)
        ensures
            bits == self.as_nat(),
    {
        self.0
    }
}

} // verus!
