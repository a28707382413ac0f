//! The Montgomery reduction constant `n0` and its derivation.

use crate::limb::Limb;
use vstd::arithmetic::power2::*;
use vstd::prelude::*;
use vstd::std_specs::convert::FromSpecImpl;

verus! {

/// The Montgomery radix `r` of the reduction constant: `2^(64 * LIMBS_USED)`.
pub open spec fn radix() -> nat {
    pow2(64)
}

/// `n0` is the negative inverse of `n` modulo the radix: `n0 * n = -1 (mod r)`.
pub open spec fn is_neg_inv_mod_r(n0: nat, n: nat) -> bool {
    (n0 * n + 1) % radix() == 0
}

/// The reduction constant of a modulus, in the two-limb layout that the
/// multiplication kernels read. Only the first `LIMBS_USED` limbs hold it.
#[derive(Debug)]
pub struct N0([Limb; 2]);

/// The number of limbs of `N0` that hold the constant.
pub const LIMBS_USED: usize = 1;

impl N0 {
    /// The constant as a natural number.
    pub closed spec fn value(&self) -> nat {
        self.0[0] as nat
    }

    /// The unused upper limb is zero.
    pub closed spec fn wf(&self) -> bool {
        self.0[1] == 0
    }

    /// The constant fits in one limb.
    pub proof fn lemma_value_fits_a_limb(self)
        ensures
            self.value() <= u64::MAX,
    {
    }

    /// The limbs of the constant, low limb first.
    pub fn limbs(&self) -> (r: &[Limb; 2])
        ensures
            r[0] == self.value(),
            self.wf() ==> r[1] == 0,
    {
        &self.0
    }
}

impl From<u64> for N0 {
    fn from(n0: u64) -> (r: Self)
        ensures
            r.value() == n0,
            r.wf(),
    {
        N0([n0, 0])
    }
}

impl FromSpecImpl<u64> for N0 {
    open spec fn obeys_from_spec() -> bool {
        true
    }

    closed spec fn from_spec(n0: u64) -> Self {
        N0([n0, 0])
    }
}

impl Clone for N0 {
    fn clone(&self) -> (r: Self)
        ensures
            r == *self,
    {
        N0(self.0)
    }
}

/// One step of the derivation keeps `2^(64-i) = u * 2^64 - v * n`.
proof fn lemma_neg_inv_step(u: int, v: int, n: int, e: int, u2: int, v2: int)
    requires
        n % 2 == 1,
        0 <= u,
        0 <= v,
        e % 2 == 0,
        e == u * 0x1_0000_0000_0000_0000 - v * n,
        u % 2 == 0 ==> u2 == u / 2 && v2 == v / 2,
        u % 2 == 1 ==> u2 == (u + n) / 2 && v2 == v / 2 + 0x8000_0000_0000_0000,
    ensures
        e / 2 == u2 * 0x1_0000_0000_0000_0000 - v2 * n,
        v % 2 == 0,
{
    let y = n / 2;
    let x = v / 2;
    if v % 2 == 1 {
        assert(v * n == 2 * (2 * x * y + x + y) + 1) by (nonlinear_arith)
            requires
                v == 2 * x + 1,
                n == 2 * y + 1,
        ;
        assert(u * 0x1_0000_0000_0000_0000 == 2 * (u * 0x8000_0000_0000_0000)) by (nonlinear_arith);
        assert(false);
    }
    let h = e / 2;
    if u % 2 == 0 {
        let w = u / 2;
        assert(h == w * 0x1_0000_0000_0000_0000 - x * n) by (nonlinear_arith)
            requires
                2 * h == u * 0x1_0000_0000_0000_0000 - v * n,
                u == 2 * w,
                v == 2 * x,
        ;
    } else {
        let w = (u + n) / 2;
        assert(h == w * 0x1_0000_0000_0000_0000 - (x + 0x8000_0000_0000_0000) * n)
            by (nonlinear_arith)
            requires
                2 * h == u * 0x1_0000_0000_0000_0000 - v * n,
                u + n == 2 * w,
                v == 2 * x,
        ;
    }
}

/// Derives the negative inverse of an odd `n` modulo `2^64`.
///
/// The loop is an extended Euclidean algorithm for a modulus that is a power
/// of two: it keeps `2^(64-i) = u * 2^64 - v * n`, and each round halves the
/// left side. It runs the same 64 rounds for every `n`, with no branch on
/// `n`, `u` or `v`. For an even `n`, which has no inverse, the result is
/// unspecified.
pub fn bn_neg_inv_mod_r_u64(n: u64) -> (n0: u64)
    ensures
        n % 2 == 1 ==> is_neg_inv_mod_r(n0 as nat, n as nat),
{
    let alpha: u64 = 0x8000_0000_0000_0000;
    let beta: u64 = n;
    let mut u: u64 = 1;
    let mut v: u64 = 0;
    let mut i: u64 = 0;
    proof {
        lemma2_to64();
    }
    while i < 64
        invariant
            i <= 64,
            alpha == 0x8000_0000_0000_0000,
            beta == n,
            n % 2 == 1 ==> pow2((64 - i) as nat) == u * 0x1_0000_0000_0000_0000 - v * n,
        decreases 64 - i,
    {
        let u_is_odd: u64 = 0u64.wrapping_sub(u & 1);
        let beta_if_u_is_odd: u64 = beta & u_is_odd;
        let alpha_if_u_is_odd: u64 = alpha & u_is_odd;
        assert(u & 1 == u % 2) by (bit_vector);
        assert(u_is_odd == if u % 2 == 1 { u64::MAX } else { 0 });
        assert(beta & 0 == 0 && beta & 0xffff_ffff_ffff_ffff == beta) by (bit_vector);
        assert(alpha & 0 == 0 && alpha & 0xffff_ffff_ffff_ffff == alpha) by (bit_vector);
        assert(((u ^ beta_if_u_is_odd) >> 1) + (u & beta_if_u_is_odd) == (u + beta_if_u_is_odd)
            / 2) by (bit_vector);
        assert(v >> 1 == v / 2) by (bit_vector);
        let ghost u_old = u as int;
        let ghost v_old = v as int;
        u = ((u ^ beta_if_u_is_odd) >> 1) + (u & beta_if_u_is_odd);
        v = (v >> 1) + alpha_if_u_is_odd;
        proof {
            if n % 2 == 1 {
                let e = pow2((64 - i) as nat) as int;
                lemma_pow2_unfold((64 - i) as nat);
                lemma_neg_inv_step(u_old, v_old, n as int, e, u as int, v as int);
            }
        }
        i += 1;
    }
    proof {
        if n % 2 == 1 {
            assert(v * n + 1 == u * 0x1_0000_0000_0000_0000);
            vstd::arithmetic::div_mod::lemma_mod_multiples_basic(
                u as int,
                0x1_0000_0000_0000_0000,
            );
            assert((v as nat) * (n as nat) + 1 == u * 0x1_0000_0000_0000_0000) by (nonlinear_arith)
                requires
                    v * n + 1 == u * 0x1_0000_0000_0000_0000,
            ;
        }
    }
    v
}

} // verus!
