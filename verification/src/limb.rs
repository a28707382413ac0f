//! Limbs, the machine words a big integer is made of, and the operations on
//! limb arrays: predicates, doubling modulo another array, and conversion
//! from and to big-endian bytes.
//!
//! The functions named `..._constant_time`, the comparison and the doubling
//! take the same steps for every value of a given length: they compute masks
//! and select with them, and branch on lengths only.

use crate::bits::BitLength;
use crate::number::{
    be_value, bit_length, lemma_be_value_bound, lemma_be_value_concat,
    lemma_be_value_leading_zeros, lemma_be_value_lower_bound, lemma_be_value_push,
    lemma_bit_length_of_limbs, lemma_less_than_step, lemma_limbs_needed_of_bytes,
    lemma_limbs_value_bound, lemma_limbs_value_low, lemma_limbs_value_push,
    lemma_limbs_value_take_next, lemma_limbs_value_zero, lemma_minimal_be_bytes_unique,
    limbs_needed, limbs_value, minimal_be_bytes,
};
use vstd::arithmetic::power2::*;
use vstd::prelude::*;

verus! {

/// One machine word of a big integer.
pub type Limb = u64;

/// The width of a limb in bits.
pub const LIMB_BITS: usize = 64;

/// The width of a limb in bytes.
pub const LIMB_BYTES: usize = 8;

/// The answer of a predicate on limbs. It is not a `bool`, so that a caller
/// does not branch on it without noticing.
#[derive(Clone, Copy, Debug, PartialEq, Eq, Structural)]
pub enum LimbMask {
    True,
    False,
}

/// All ones if `a` is zero, else zero.
fn limb_is_zero_word(a: Limb) -> (w: Limb)
    ensures
        w == if a == 0 { u64::MAX } else { 0 },
{
    let b = a.wrapping_sub(1);
    let t = (!a & b) >> 63;
    assert(a == 0 ==> (!a & 0xffff_ffff_ffff_ffffu64) >> 63 == 1) by (bit_vector);
    assert(a != 0 ==> (!a & ((a - 1) as u64)) >> 63 == 0) by (bit_vector);
    0u64.wrapping_sub(t)
}

/// All ones if `a < b`, else zero.
fn limb_less_than_word(a: Limb, b: Limb) -> (w: Limb)
    ensures
        w == if a < b { u64::MAX } else { 0 },
{
    let d: u128 = 0x1_0000_0000_0000_0000u128 + a as u128 - b as u128;
    let not_less: u64 = (d / 0x1_0000_0000_0000_0000u128) as u64;
    not_less.wrapping_sub(1)
}

/// The mask that a word of all ones or all zeros stands for.
fn mask_of_word(w: Limb) -> (m: LimbMask)
    ensures
        m == if w != 0 { LimbMask::True } else { LimbMask::False },
{
    if w != 0 {
        LimbMask::True
    } else {
        LimbMask::False
    }
}

/// The bitwise OR of the limbs from index `start` on.
fn limbs_or_from(a: &[Limb], start: usize) -> (acc: Limb)
    requires
        start <= a@.len(),
    ensures
        acc == 0 <==> (forall|j: int| start <= j < a@.len() ==> a@[j] == 0),
{
    let mut acc: Limb = 0;
    let mut i: usize = start;
    while i < a.len()
        invariant
            start <= i <= a@.len(),
            acc == 0 <==> (forall|j: int| start <= j < i ==> a@[j] == 0),
        decreases a@.len() - i,
    {
        let x = a[i];
        assert((acc | x) == 0 <==> acc == 0 && x == 0) by (bit_vector);
        acc = acc | x;
        i += 1;
    }
    acc
}

/// Whether the value of `a` is even.
pub fn limbs_are_even_constant_time(a: &[Limb]) -> (r: LimbMask)
    ensures
        r == LimbMask::True <==> limbs_value(a@) % 2 == 0,
{
    if a.len() == 0 {
        return LimbMask::True;
    }
    let low_bit = a[0] & 1;
    proof {
        let x = a[0];
        assert(x & 1 == x % 2) by (bit_vector);
        lemma_limbs_value_low(a@);
    }
    mask_of_word(limb_is_zero_word(low_bit))
}

/// Whether the value of `a` is less than `b`.
pub fn limbs_less_than_limb_constant_time(a: &[Limb], b: Limb) -> (r: LimbMask)
    ensures
        r == LimbMask::True <==> limbs_value(a@) < b,
{
    if a.len() == 0 {
        return mask_of_word(limb_less_than_word(0, b));
    }
    let lo = limb_less_than_word(a[0], b);
    let hi = limb_is_zero_word(limbs_or_from(a, 1));
    proof {
        lemma2_to64();
        lemma_limbs_value_low(a@);
        let rest = a@.skip(1);
        lemma_limbs_value_zero(rest);
        assert(lo & hi == if lo == u64::MAX && hi == u64::MAX { u64::MAX } else { 0 }) by (bit_vector)
            requires
                lo == u64::MAX || lo == 0,
                hi == u64::MAX || hi == 0,
        ;
        if hi == u64::MAX {
            assert forall|j: int| 0 <= j < rest.len() implies rest[j] == 0 by {
                assert(rest[j] == a@[j + 1]);
            }
            assert(pow2(64) * limbs_value(rest) == 0) by (nonlinear_arith)
                requires
                    limbs_value(rest) == 0,
            ;
        } else {
            let j = choose|j: int| 1 <= j < a@.len() && a@[j] != 0;
            assert(rest[j - 1] == a@[j]);
            assert(limbs_value(rest) >= 1);
            assert(pow2(64) * limbs_value(rest) >= pow2(64)) by (nonlinear_arith)
                requires
                    limbs_value(rest) >= 1,
            ;
        }
    }
    mask_of_word(lo & hi)
}

/// The number of bits in the value of `a`, not counting leading zero bits.
pub fn limbs_minimal_bits(a: &[Limb]) -> (r: BitLength)
    requires
        a@.len() * LIMB_BITS <= usize::MAX,
    ensures
        r.as_nat() == bit_length(limbs_value(a@)),
{
    let mut num_limbs: usize = a.len();
    while num_limbs > 0
        invariant
            num_limbs <= a@.len(),
            a@.len() * LIMB_BITS <= usize::MAX,
            forall|j: int| num_limbs <= j < a@.len() ==> a@[j] == 0,
        decreases num_limbs,
    {
        let high_limb = a[num_limbs - 1];
        let mut high_limb_num_bits: u64 = 64;
        proof {
            lemma2_to64();
        }
        while high_limb_num_bits > 0
            invariant
                high_limb_num_bits <= 64,
                0 < num_limbs <= a@.len(),
                a@.len() * LIMB_BITS <= usize::MAX,
                high_limb == a@[num_limbs - 1],
                forall|j: int| num_limbs <= j < a@.len() ==> a@[j] == 0,
                high_limb < pow2(high_limb_num_bits as nat),
            decreases high_limb_num_bits,
        {
            let shift: u64 = high_limb_num_bits - 1;
            let shifted = high_limb >> shift;
            proof {
                vstd::bits::lemma_u64_shr_is_div(high_limb, shift);
                lemma_pow2_pos(shift as nat);
                let p = pow2(shift as nat) as int;
                vstd::arithmetic::div_mod::lemma_fundamental_div_mod(high_limb as int, p);
                vstd::arithmetic::div_mod::lemma_mod_bound(high_limb as int, p);
                let q = high_limb as int / p;
                assert(q >= 1 ==> p * q >= p) by (nonlinear_arith)
                    requires
                        p > 0,
                ;
                assert(q == 0 ==> p * q == 0) by (nonlinear_arith);
            }
            if shifted != 0 {
                proof {
                    lemma_bit_length_of_limbs(a@, num_limbs - 1, high_limb_num_bits as nat);
                }
                return BitLength::from_usize_bits(
                    (num_limbs - 1) * LIMB_BITS + high_limb_num_bits as usize,
                );
            }
            high_limb_num_bits -= 1;
        }
        proof {
            lemma2_to64();
        }
        num_limbs -= 1;
    }
    proof {
        lemma_limbs_value_zero(a@);
    }
    BitLength::from_usize_bits(0)
}

/// All ones if the value of `a` is less than that of `b`, else zero.
fn limbs_less_than_word(a: &[Limb], b: &[Limb]) -> (w: Limb)
    requires
        a@.len() == b@.len(),
    ensures
        w == if limbs_value(a@) < limbs_value(b@) { u64::MAX } else { 0 },
{
    let mut borrow: u64 = 0;
    let mut i: usize = 0;
    while i < a.len()
        invariant
            i <= a@.len(),
            a@.len() == b@.len(),
            borrow <= 1,
            borrow == 1 <==> limbs_value(a@.take(i as int)) < limbs_value(b@.take(i as int)),
        decreases a@.len() - i,
    {
        let d: u128 = 0x1_0000_0000_0000_0000u128 + a[i] as u128 - b[i] as u128 - borrow as u128;
        proof {
            lemma_limbs_value_take_next(a@, i as int);
            lemma_limbs_value_take_next(b@, i as int);
            lemma_limbs_value_bound(a@.take(i as int));
            lemma_limbs_value_bound(b@.take(i as int));
            lemma_less_than_step(
                limbs_value(a@.take(i as int)),
                limbs_value(b@.take(i as int)),
                pow2((64 * i) as nat),
                a@[i as int] as nat,
                b@[i as int] as nat,
            );
        }
        borrow = 1 - (d / 0x1_0000_0000_0000_0000u128) as u64;
        i += 1;
    }
    assert(a@.take(i as int) =~= a@);
    assert(b@.take(i as int) =~= b@);
    0u64.wrapping_sub(borrow)
}

/// Doubles `r` in place and returns the bit shifted out at the top.
fn limbs_shl1(r: &mut Vec<Limb>) -> (carry: Limb)
    ensures
        final(r)@.len() == old(r)@.len(),
        carry <= 1,
        limbs_value(final(r)@) + carry * pow2((64 * old(r)@.len()) as nat) == 2 * limbs_value(
            old(r)@,
        ),
{
    let n = r.len();
    let mut carry: Limb = 0;
    let mut i: usize = 0;
    while i < n
        invariant
            i <= n,
            n == r@.len(),
            r@.len() == old(r)@.len(),
            carry <= 1,
            forall|j: int| i <= j < n ==> r@[j] == old(r)@[j],
            limbs_value(r@.take(i as int)) + carry * pow2((64 * i) as nat) == 2 * limbs_value(
                old(r)@.take(i as int),
            ),
        decreases n - i,
    {
        let limb = r[i];
        let new_carry = limb >> 63;
        let new_limb = (limb << 1) | carry;
        assert(new_limb + new_carry * 0x1_0000_0000_0000_0000 == 2 * limb + carry && new_carry <= 1)
            by (bit_vector)
            requires
                carry <= 1,
                new_carry == limb >> 63,
                new_limb == (limb << 1) | carry,
        ;
        let ghost before = r@;
        r.set(i, new_limb);
        proof {
            lemma2_to64();
            assert(r@.take(i as int) =~= before.take(i as int));
            lemma_limbs_value_take_next(r@, i as int);
            lemma_limbs_value_take_next(old(r)@, i as int);
            lemma_pow2_adds((64 * i) as nat, 64);
            let p = pow2((64 * i) as nat);
            assert(new_limb * p + new_carry * (p * 0x1_0000_0000_0000_0000) == 2 * (limb * p)
                + carry * p) by (nonlinear_arith)
                requires
                    new_limb + new_carry * 0x1_0000_0000_0000_0000 == 2 * limb + carry,
            ;
        }
        carry = new_carry;
        i += 1;
    }
    assert(r@.take(i as int) =~= r@);
    assert(old(r)@.take(i as int) =~= old(r)@);
    carry
}

/// Subtracts `m` from `r` in place where `mask` is all ones, and nothing
/// where it is zero; returns the borrow out of the top limb.
fn limbs_sub_masked(r: &mut Vec<Limb>, m: &[Limb], mask: Limb) -> (borrow: Limb)
    requires
        old(r)@.len() == m@.len(),
        mask == 0 || mask == u64::MAX,
    ensures
        final(r)@.len() == old(r)@.len(),
        borrow <= 1,
        limbs_value(final(r)@) + (if mask == 0 { 0 } else { limbs_value(m@) }) == limbs_value(
            old(r)@,
        ) + borrow * pow2((64 * m@.len()) as nat),
{
    let n = r.len();
    let mut borrow: Limb = 0;
    let mut i: usize = 0;
    while i < n
        invariant
            i <= n,
            n == r@.len(),
            r@.len() == old(r)@.len(),
            r@.len() == m@.len(),
            mask == 0 || mask == u64::MAX,
            borrow <= 1,
            forall|j: int| i <= j < n ==> r@[j] == old(r)@[j],
            limbs_value(r@.take(i as int)) + (if mask == 0 { 0 } else { limbs_value(m@.take(i as int)) })
                == limbs_value(old(r)@.take(i as int)) + borrow * pow2((64 * i) as nat),
        decreases n - i,
    {
        let limb = r[i];
        let m_limb = m[i];
        let sub = m_limb & mask;
        assert(sub == if mask == 0 { 0 } else { m_limb }) by (bit_vector)
            requires
                sub == m_limb & mask,
                mask == 0 || mask == u64::MAX,
        ;
        let d: u128 = 0x1_0000_0000_0000_0000u128 + limb as u128 - sub as u128 - borrow as u128;
        let new_limb: u64 = (d % 0x1_0000_0000_0000_0000u128) as u64;
        let new_borrow: u64 = 1 - (d / 0x1_0000_0000_0000_0000u128) as u64;
        let ghost before = r@;
        r.set(i, new_limb);
        proof {
            lemma2_to64();
            assert(r@.take(i as int) =~= before.take(i as int));
            lemma_limbs_value_take_next(r@, i as int);
            lemma_limbs_value_take_next(old(r)@, i as int);
            lemma_limbs_value_take_next(m@, i as int);
            lemma_pow2_adds((64 * i) as nat, 64);
            let p = pow2((64 * i) as nat);
            assert(new_limb * p + sub * p + borrow * p == limb * p + new_borrow * (p
                * 0x1_0000_0000_0000_0000)) by (nonlinear_arith)
                requires
                    new_limb + sub + borrow == limb + new_borrow * 0x1_0000_0000_0000_0000,
            ;
        }
        borrow = new_borrow;
        i += 1;
    }
    assert(r@.take(i as int) =~= r@);
    assert(old(r)@.take(i as int) =~= old(r)@);
    assert(m@.take(i as int) =~= m@);
    borrow
}

/// Replaces `r` by `2 r mod m`, for `r < m`.
pub fn limbs_double_mod(r: &mut Vec<Limb>, m: &[Limb])
    requires
        old(r)@.len() == m@.len(),
        limbs_value(old(r)@) < limbs_value(m@),
    ensures
        final(r)@.len() == m@.len(),
        limbs_value(final(r)@) == (2 * limbs_value(old(r)@)) % limbs_value(m@),
{
    let carry = limbs_shl1(r);
    let ghost doubled = r@;
    let overflow = 0u64.wrapping_sub(carry);
    let less = limbs_less_than_word(r.as_slice(), m);
    let not_less = !less;
    assert(not_less == if less == 0 { u64::MAX } else { 0 }) by (bit_vector)
        requires
            not_less == !less,
            less == 0 || less == u64::MAX,
    ;
    let mask = overflow | not_less;
    assert(mask == if overflow == 0 && not_less == 0 { 0 } else { u64::MAX }) by (bit_vector)
        requires
            mask == overflow | not_less,
            overflow == 0 || overflow == u64::MAX,
            not_less == 0 || not_less == u64::MAX,
    ;
    let borrow = limbs_sub_masked(r, m, mask);
    proof {
        let x = limbs_value(old(r)@) as int;
        let mv = limbs_value(m@) as int;
        let p = pow2((64 * m@.len()) as nat) as int;
        let r1 = limbs_value(doubled) as int;
        let r2 = limbs_value(r@) as int;
        lemma_limbs_value_bound(doubled);
        lemma_limbs_value_bound(r@);
        lemma_limbs_value_bound(m@);
        if mask == 0 {
            assert(borrow == 0) by (nonlinear_arith)
                requires
                    r2 == r1 + borrow * p,
                    0 <= r1,
                    r2 < p,
                    0 <= borrow <= 1,
            ;
            vstd::arithmetic::div_mod::lemma_small_mod((2 * x) as nat, mv as nat);
        } else {
            assert(borrow == carry) by (nonlinear_arith)
                requires
                    r2 + mv == r1 + borrow * p,
                    r1 + carry * p == 2 * x,
                    mv <= 2 * x < 2 * mv,
                    mv < p,
                    0 <= r2 < p,
                    0 <= borrow <= 1,
                    0 <= carry <= 1,
            ;
            assert(r2 == 2 * x - mv) by (nonlinear_arith)
                requires
                    r2 + mv == r1 + borrow * p,
                    r1 + carry * p == 2 * x,
                    borrow == carry,
            ;
            vstd::arithmetic::div_mod::lemma_fundamental_div_mod_converse(2 * x, mv, 1, r2);
        }
    }
}

/// Decodes big-endian bytes into the shortest limb array of the same value.
/// Leading zero bytes are skipped; the value zero has no limbs.
pub fn limbs_from_be_bytes(bytes: &[u8]) -> (limbs: Vec<Limb>)
    ensures
        limbs_value(limbs@) == be_value(bytes@),
        limbs@.len() == limbs_needed(be_value(bytes@)),
        limbs@.len() == 0 || limbs@.last() != 0,
{
    let len = bytes.len();
    let mut start: usize = 0;
    while start < len && bytes[start] == 0
        invariant
            start <= len,
            len == bytes@.len(),
            forall|i: int| 0 <= i < start ==> bytes@[i] == 0,
        decreases len - start,
    {
        start += 1;
    }
    let mut limbs: Vec<Limb> = Vec::new();
    let mut end: usize = len;
    assert(bytes@.subrange(end as int, len as int) =~= Seq::<u8>::empty());
    while end > start
        invariant
            start <= end <= len,
            len == bytes@.len(),
            limbs@.len() == (len - end + 7) / 8,
            end > start ==> (len - end) % 8 == 0,
            limbs_value(limbs@) == be_value(bytes@.subrange(end as int, len as int)),
            end == start && limbs@.len() > 0 && bytes@[start as int] != 0 ==> limbs@.last() != 0,
        decreases end,
    {
        let chunk: usize = if end - start < LIMB_BYTES {
            end - start
        } else {
            LIMB_BYTES
        };
        let lo: usize = end - chunk;
        let mut limb: Limb = 0;
        let mut j: usize = lo;
        assert(bytes@.subrange(lo as int, j as int) =~= Seq::<u8>::empty());
        while j < end
            invariant
                lo <= j <= end <= len,
                end - lo <= 8,
                len == bytes@.len(),
                limb == be_value(bytes@.subrange(lo as int, j as int)),
            decreases end - j,
        {
            proof {
                let part = bytes@.subrange(lo as int, j as int);
                lemma_be_value_bound(part);
                lemma2_to64();
                lemma2_to64_rest();
                if j - lo < 7 {
                    lemma_pow2_strictly_increases((8 * (j - lo)) as nat, 56);
                }
                lemma_be_value_push(part, bytes@[j as int]);
                assert(part.push(bytes@[j as int]) =~= bytes@.subrange(lo as int, j + 1));
            }
            limb = limb * 256 + bytes[j] as Limb;
            j += 1;
        }
        proof {
            let hi = bytes@.subrange(lo as int, end as int);
            let low = bytes@.subrange(end as int, len as int);
            assert(hi + low =~= bytes@.subrange(lo as int, len as int));
            lemma_be_value_concat(hi, low);
            lemma_limbs_value_push(limbs@, limb);
            assert(be_value(hi) * pow2((8 * low.len()) as nat) == limb as nat * pow2(
                (64 * limbs@.len()) as nat,
            ));
            if lo == start && bytes@[start as int] != 0 {
                lemma_be_value_lower_bound(hi);
                lemma_pow2_pos((8 * (hi.len() - 1)) as nat);
            }
        }
        limbs.push(limb);
        end = lo;
    }
    proof {
        let v = be_value(bytes@);
        let sig = bytes@.subrange(start as int, len as int);
        assert(sig =~= bytes@.skip(start as int));
        lemma_be_value_leading_zeros(bytes@, start as int);
        lemma_be_value_bound(sig);
        if sig.len() > 0 {
            assert(sig[0] == bytes@[start as int]);
            lemma_be_value_lower_bound(sig);
        }
        lemma_limbs_needed_of_bytes(v, sig.len());
    }
    limbs
}

/// Appends `b` to `out`, unless `out` is empty and `b` is zero.
fn push_unless_leading_zero(out: &mut Vec<u8>, b: u8)
    requires
        old(out)@.len() == 0 || old(out)@[0] != 0,
    ensures
        final(out)@.len() == 0 || final(out)@[0] != 0,
        be_value(final(out)@) == be_value(old(out)@) * 256 + b,
        final(out)@ == if old(out)@.len() == 0 && b == 0 {
            old(out)@
        } else {
            old(out)@.push(b)
        },
{
    if out.len() > 0 || b != 0 {
        proof {
            lemma_be_value_push(out@, b);
        }
        out.push(b);
    }
}

/// Appends the eight bytes of `limb`, most significant first, leaving out
/// leading zero bytes of the whole output.
fn push_limb_be(out: &mut Vec<u8>, limb: Limb)
    requires
        old(out)@.len() == 0 || old(out)@[0] != 0,
    ensures
        final(out)@.len() == 0 || final(out)@[0] != 0,
        be_value(final(out)@) == be_value(old(out)@) * 0x1_0000_0000_0000_0000 + limb,
{
    let ghost b0 = be_value(out@);
    let mut rem: Limb = limb;
    push_unless_leading_zero(out, (rem / 0x100_0000_0000_0000) as u8);
    rem = rem % 0x100_0000_0000_0000;
    assert(be_value(out@) * 0x100_0000_0000_0000 + rem == b0 * 0x1_0000_0000_0000_0000 + limb);
    push_unless_leading_zero(out, (rem / 0x1_0000_0000_0000) as u8);
    rem = rem % 0x1_0000_0000_0000;
    assert(be_value(out@) * 0x1_0000_0000_0000 + rem == b0 * 0x1_0000_0000_0000_0000 + limb);
    push_unless_leading_zero(out, (rem / 0x100_0000_0000) as u8);
    rem = rem % 0x100_0000_0000;
    assert(be_value(out@) * 0x100_0000_0000 + rem == b0 * 0x1_0000_0000_0000_0000 + limb);
    push_unless_leading_zero(out, (rem / 0x1_0000_0000) as u8);
    rem = rem % 0x1_0000_0000;
    assert(be_value(out@) * 0x1_0000_0000 + rem == b0 * 0x1_0000_0000_0000_0000 + limb);
    push_unless_leading_zero(out, (rem / 0x100_0000) as u8);
    rem = rem % 0x100_0000;
    assert(be_value(out@) * 0x100_0000 + rem == b0 * 0x1_0000_0000_0000_0000 + limb);
    push_unless_leading_zero(out, (rem / 0x1_0000) as u8);
    rem = rem % 0x1_0000;
    assert(be_value(out@) * 0x1_0000 + rem == b0 * 0x1_0000_0000_0000_0000 + limb);
    push_unless_leading_zero(out, (rem / 0x100) as u8);
    rem = rem % 0x100;
    assert(be_value(out@) * 0x100 + rem == b0 * 0x1_0000_0000_0000_0000 + limb);
    push_unless_leading_zero(out, rem as u8);
}

/// Encodes the value of `limbs` as big-endian bytes without leading zero
/// bytes. The value zero is encoded as no bytes at all.
pub fn limbs_to_be_bytes(limbs: &[Limb]) -> (bytes: Vec<u8>)
    ensures
        bytes@ == minimal_be_bytes(limbs_value(limbs@)),
{
    let mut out: Vec<u8> = Vec::new();
    let mut i: usize = limbs.len();
    assert(limbs@.skip(i as int) =~= Seq::<Limb>::empty());
    while i > 0
        invariant
            i <= limbs@.len(),
            out@.len() == 0 || out@[0] != 0,
            be_value(out@) == limbs_value(limbs@.skip(i as int)),
        decreases i,
    {
        i -= 1;
        proof {
            lemma2_to64();
            let t = limbs@.skip(i as int);
            lemma_limbs_value_low(t);
            assert(t.skip(1) =~= limbs@.skip(i + 1));
            assert(pow2(64) * limbs_value(t.skip(1)) == limbs_value(t.skip(1))
                * 0x1_0000_0000_0000_0000) by (nonlinear_arith)
                requires
                    pow2(64) == 0x1_0000_0000_0000_0000,
            ;
        }
        push_limb_be(&mut out, limbs[i]);
    }
    proof {
        assert(limbs@.skip(0) =~= limbs@);
        lemma_minimal_be_bytes_unique(out@);
    }
    out
}

} // verus!
