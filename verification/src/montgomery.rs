//! Encodings of a residue, as compile-time tags, and what Montgomery
//! multiplication computes, as a specification.

use vstd::arithmetic::power2::*;
use vstd::prelude::*;

verus! {

/// Tags a value that is in its natural form.
pub struct Unencoded;

/// Tags a value that is multiplied by `R*R`: the Montgomery encoding of a
/// value that is itself Montgomery-encoded.
pub struct RR;

/// The Montgomery radix `R` of a modulus of `num_limbs` limbs.
pub open spec fn montgomery_radix(num_limbs: nat) -> nat {
    pow2(64 * num_limbs)
}

/// What a Montgomery multiplication kernel returns for the operands `a` and
/// `b` modulo `n`: the reduced `p` with `p * R = a * b (mod n)`.
pub open spec fn is_montgomery_product(p: nat, a: nat, b: nat, n: nat, r: nat) -> bool {
    p < n && (p * r) % n == (a * b) % n
}

} // verus!
