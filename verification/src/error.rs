//! Why a candidate modulus is turned down.

use vstd::prelude::*;

verus! {

/// The reason a constructor refused its input.
#[derive(Clone, Copy, Debug, PartialEq, Eq, Structural)]
pub enum KeyRejected {
    /// The value needs more limbs than the largest supported modulus.
    TooLarge,
    /// The value lacks a required mathematical property: it is even.
    InvalidComponent,
    /// An internal consistency check failed: the value has fewer limbs than
    /// the smallest supported modulus, or is below 3.
    UnexpectedError,
}

} // verus!
