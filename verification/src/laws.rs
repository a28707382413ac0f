//! What holds of every modulus and of every attempt to build one, stated
//! over the spec functions that the contracts of the constructors use, and
//! proved from them.

use crate::error::KeyRejected;
use crate::modulus::{
    rejection, rejection_of_bytes, Modulus, OwnedModulusWithOne, MODULUS_MAX_LIMBS,
    MODULUS_MIN_LIMBS,
};
use crate::montgomery::{is_montgomery_product, montgomery_radix};
use crate::n0::radix;
use crate::number::{
    be_value, lemma_cancel_pow2, lemma_limbs_needed_le, lemma_limbs_value_low,
    lemma_limbs_value_unique, lemma_minimal_be_bytes, lemma_neg_inv_unique, limbs_needed,
    minimal_be_bytes,
};
use vstd::arithmetic::div_mod::*;
use vstd::arithmetic::power2::*;
use vstd::prelude::*;

verus! {

/// Round trip: the bytes that a modulus is written out as do not start with
/// a zero byte and decode to the same number, which is accepted again. For a
/// modulus in its shortest limb form, as one built from bytes is, decoding
/// gives the same number of limbs too.
pub proof fn lemma_round_trip<M>(m: OwnedModulusWithOne<M>)
    requires
        m.wf(),
    ensures
        minimal_be_bytes(m.value()).len() > 0,
        minimal_be_bytes(m.value())[0] != 0,
        be_value(minimal_be_bytes(m.value())) == m.value(),
        m@.len() == limbs_needed(m.value()) ==> rejection_of_bytes(minimal_be_bytes(m.value()))
            is None,
{
    lemma_minimal_be_bytes(m.value());
}

/// The reduction constant of a modulus `n` satisfies
/// `(n mod r) * n0 = -1 (mod r)`, where `r` is the radix `2^64`.
pub proof fn lemma_n0_is_negative_inverse<M>(m: OwnedModulusWithOne<M>)
    requires
        m.wf(),
    ensures
        ((m.value() % radix()) * m.n0_spec().value() + 1) % radix() == 0,
{
    lemma_limbs_value_low(m@);
    let n_mod_r = m.value() % radix();
    let n0 = m.n0_spec().value();
    assert(n_mod_r * n0 == n0 * n_mod_r) by (nonlinear_arith);
}

/// The same for the borrowed view of a modulus.
pub proof fn lemma_view_n0_is_negative_inverse<M>(m: Modulus<M>)
    requires
        m.wf(),
    ensures
        ((m.value() % radix()) * m.n0_spec().value() + 1) % radix() == 0,
{
    lemma_limbs_value_low(m@);
    let n_mod_r = m.value() % radix();
    let n0 = m.n0_spec().value();
    assert(n_mod_r * n0 == n0 * n_mod_r) by (nonlinear_arith);
}

/// The derived parts of a modulus are functions of its limbs: two moduli with
/// the same limbs have the same `n0`, the same bit length and the same
/// `oneRR`.
pub proof fn lemma_parts_are_determined<M>(a: OwnedModulusWithOne<M>, b: OwnedModulusWithOne<M>)
    requires
        a.wf(),
        b.wf(),
        a@ == b@,
    ensures
        a.n0_spec().value() == b.n0_spec().value(),
        a.len_bits_spec().as_nat() == b.len_bits_spec().as_nat(),
        a.one_rr_spec()@ == b.one_rr_spec()@,
{
    lemma2_to64();
    a.n0_spec().lemma_value_fits_a_limb();
    b.n0_spec().lemma_value_fits_a_limb();
    lemma_neg_inv_unique(a.n0_spec().value(), b.n0_spec().value(), a@[0] as nat, radix());
    lemma_limbs_value_unique(a.one_rr_spec()@, b.one_rr_spec()@);
}

/// Two moduli of the same number of limbs and the same value have the same
/// limbs.
pub proof fn lemma_limbs_are_determined<M>(a: OwnedModulusWithOne<M>, b: OwnedModulusWithOne<M>)
    requires
        a@.len() == b@.len(),
        a.value() == b.value(),
    ensures
        a@ == b@,
{
    lemma_limbs_value_unique(a@, b@);
}

/// The stored `oneRR` is the Montgomery encoding of 1, taken twice: a first
/// Montgomery multiplication by 1 gives some `x`, a second one gives 1,
/// whatever kernel computes the products.
pub proof fn lemma_one_rr_decodes_to_one<M>(m: OwnedModulusWithOne<M>, x: nat, y: nat)
    requires
        m.wf(),
        is_montgomery_product(
            x,
            m.one_rr_spec().value(),
            1,
            m.value(),
            montgomery_radix(m@.len()),
        ),
        is_montgomery_product(y, x, 1, m.value(), montgomery_radix(m@.len())),
    ensures
        x == montgomery_radix(m@.len()) % m.value(),
        y == 1,
{
    let n = m.value() as int;
    let k = 64 * m@.len();
    let r = pow2(k) as int;
    let rr = m.one_rr_spec().value() as int;
    assert(rr * 1 == rr && x * 1 == x && 1 * r == r) by (nonlinear_arith);
    lemma_mod_twice(r * r, n);
    // x * R = R * R (mod n), so x = R (mod n).
    lemma_cancel_pow2(x as int, r, k, n);
    lemma_small_mod(x, n as nat);
    // y * R = x = 1 * R (mod n), so y = 1 (mod n).
    lemma_mod_twice(r, n);
    lemma_cancel_pow2(y as int, 1, k, n);
    lemma_small_mod(y, n as nat);
    lemma_small_mod(1, n as nat);
}

/// An even value in a supported number of limbs is turned down as an
/// invalid component.
pub proof fn lemma_even_is_invalid_component(bytes: Seq<u8>)
    requires
        be_value(bytes) % 2 == 0,
        MODULUS_MIN_LIMBS <= limbs_needed(be_value(bytes)) <= MODULUS_MAX_LIMBS,
    ensures
        rejection_of_bytes(bytes) == Some(KeyRejected::InvalidComponent),
{
}

/// The same, with the size given by the value: an even value from
/// `2^192` up to, but not including, `2^8192`.
pub proof fn lemma_even_in_range_is_invalid_component(bytes: Seq<u8>)
    requires
        be_value(bytes) % 2 == 0,
        pow2(192) <= be_value(bytes) < pow2(8192),
    ensures
        rejection_of_bytes(bytes) == Some(KeyRejected::InvalidComponent),
{
    lemma_limbs_needed_le(be_value(bytes), 3);
    lemma_limbs_needed_le(be_value(bytes), 128);
}

/// The encodings of 0, 1 and 2 are turned down as unexpected.
pub proof fn lemma_below_three_is_unexpected(bytes: Seq<u8>)
    requires
        be_value(bytes) <= 2,
    ensures
        rejection_of_bytes(bytes) == Some(KeyRejected::UnexpectedError),
{
    lemma2_to64();
    lemma_limbs_needed_le(be_value(bytes), 1);
}

/// A value of more than the largest number of limbs, that is of `2^8192` or
/// more, is turned down as too large, whatever else holds of it.
pub proof fn lemma_oversized_is_too_large(bytes: Seq<u8>)
    requires
        be_value(bytes) >= pow2(8192),
    ensures
        limbs_needed(be_value(bytes)) > MODULUS_MAX_LIMBS,
        rejection_of_bytes(bytes) == Some(KeyRejected::TooLarge),
{
    lemma_limbs_needed_le(be_value(bytes), 128);
}

/// An odd value of exactly the largest number of limbs is accepted.
pub proof fn lemma_maximum_size_is_accepted(bytes: Seq<u8>)
    requires
        be_value(bytes) % 2 == 1,
        limbs_needed(be_value(bytes)) == MODULUS_MAX_LIMBS,
    ensures
        rejection_of_bytes(bytes) is None,
{
    lemma2_to64();
    lemma_limbs_needed_le(be_value(bytes), 1);
}

/// A value of fewer than the smallest number of limbs, that is below
/// `2^192`, is turned down as unexpected, even where it is odd and at
/// least 3.
pub proof fn lemma_too_few_limbs_is_unexpected(bytes: Seq<u8>)
    requires
        be_value(bytes) < pow2(192),
    ensures
        limbs_needed(be_value(bytes)) < MODULUS_MIN_LIMBS,
        rejection_of_bytes(bytes) == Some(KeyRejected::UnexpectedError),
{
    lemma_limbs_needed_le(be_value(bytes), 3);
}

/// A limb array is accepted exactly when its width is supported and its
/// value is odd and at least 3.
pub proof fn lemma_accepted_iff_valid(num_limbs: nat, value: nat)
    ensures
        rejection(num_limbs, value) is None <==> (MODULUS_MIN_LIMBS <= num_limbs
            <= MODULUS_MAX_LIMBS && value % 2 == 1 && value >= 3),
{
}

} // verus!
