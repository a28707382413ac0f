//! The mathematical model behind the limb arrays and byte strings of this
//! crate: their values as natural numbers, and the facts the code relies on.

use vstd::arithmetic::div_mod::*;
use vstd::arithmetic::mul::*;
use vstd::arithmetic::power2::*;
use vstd::prelude::*;

verus! {

/// The number of bits in the shortest binary representation of `v`;
/// zero has length 0.
pub open spec fn bit_length(v: nat) -> nat
    decreases v,
{
    if v == 0 {
        0
    } else {
        1 + bit_length(v / 2)
    }
}

/// The number of 64-bit limbs in the shortest limb representation of `v`.
pub open spec fn limbs_needed(v: nat) -> nat {
    (bit_length(v) + 63) / 64
}

/// The value of a limb sequence, least significant limb first.
pub open spec fn limbs_value(limbs: Seq<u64>) -> nat
    decreases limbs.len(),
{
    if limbs.len() == 0 {
        0
    } else {
        limbs_value(limbs.drop_last()) + limbs.last() as nat * pow2(
            (64 * (limbs.len() - 1)) as nat,
        )
    }
}

/// The value of a byte sequence, most significant byte first.
pub open spec fn be_value(bytes: Seq<u8>) -> nat
    decreases bytes.len(),
{
    if bytes.len() == 0 {
        0
    } else {
        be_value(bytes.drop_last()) * 256 + bytes.last() as nat
    }
}

/// The big-endian encoding of `v` without leading zero bytes; zero is the
/// empty sequence.
pub open spec fn minimal_be_bytes(v: nat) -> Seq<u8>
    decreases v,
{
    if v == 0 {
        Seq::<u8>::empty()
    } else {
        minimal_be_bytes(v / 256).push((v % 256) as u8)
    }
}

/// `v` is below `2^bit_length(v)`, and a positive `v` is at least half of it.
pub proof fn lemma_bit_length_bounds(v: nat)
    ensures
        v < pow2(bit_length(v)),
        v > 0 ==> pow2((bit_length(v) - 1) as nat) <= v,
    decreases v,
{
    lemma2_to64();
    if v > 0 {
        lemma_bit_length_bounds(v / 2);
        lemma_pow2_unfold(bit_length(v));
        if v / 2 > 0 {
            lemma_pow2_unfold((bit_length(v) - 1) as nat);
        }
    }
}

/// The bit length is the only `k` with `2^(k-1) <= v < 2^k`.
pub proof fn lemma_bit_length_unique(v: nat, k: nat)
    requires
        k > 0,
        pow2((k - 1) as nat) <= v < pow2(k),
    ensures
        bit_length(v) == k,
    decreases k,
{
    lemma2_to64();
    lemma_pow2_pos((k - 1) as nat);
    if k == 1 {
        assert(v == 1);
        assert(bit_length(1) == 1 + bit_length(0));
    } else {
        lemma_pow2_unfold(k);
        lemma_pow2_unfold((k - 1) as nat);
        lemma_bit_length_unique(v / 2, (k - 1) as nat);
    }
}

/// Appending a limb adds it at the next position.
pub proof fn lemma_limbs_value_push(s: Seq<u64>, x: u64)
    ensures
        limbs_value(s.push(x)) == limbs_value(s) + x as nat * pow2((64 * s.len()) as nat),
{
    assert(s.push(x).drop_last() =~= s);
}

/// A sequence of `n` limbs is below `2^(64 n)`.
pub proof fn lemma_limbs_value_bound(s: Seq<u64>)
    ensures
        limbs_value(s) < pow2((64 * s.len()) as nat),
    decreases s.len(),
{
    lemma2_to64();
    if s.len() > 0 {
        let n = (s.len() - 1) as nat;
        lemma_limbs_value_bound(s.drop_last());
        lemma_pow2_adds(64 * n, 64);
        let p = pow2(64 * n);
        let x = s.last() as nat;
        assert(x * p + p <= pow2(64) * p) by (nonlinear_arith)
            requires
                x < pow2(64),
        ;
        assert(pow2(64 * n) * pow2(64) == pow2(64) * p) by (nonlinear_arith)
            requires
                p == pow2(64 * n),
        ;
    }
}

/// The value splits at any position into a low and a high part.
pub proof fn lemma_limbs_value_split(s: Seq<u64>, k: int)
    requires
        0 <= k <= s.len(),
    ensures
        limbs_value(s) == limbs_value(s.take(k)) + pow2((64 * k) as nat) * limbs_value(s.skip(k)),
    decreases s.len(),
{
    if k == s.len() {
        assert(s.take(k) =~= s);
        assert(s.skip(k).len() == 0);
        assert(pow2((64 * k) as nat) * 0 == 0) by (nonlinear_arith);
    } else {
        let n = (s.len() - 1) as nat;
        let t = s.drop_last();
        lemma_limbs_value_split(t, k);
        assert(t.take(k) =~= s.take(k));
        assert(s.skip(k).drop_last() =~= t.skip(k));
        assert(s.skip(k).last() == s.last());
        let pk = pow2((64 * k) as nat);
        let hi = limbs_value(t.skip(k));
        let x = s.last() as nat;
        let pr = pow2((64 * (n - k)) as nat);
        lemma_pow2_adds((64 * k) as nat, (64 * (n - k)) as nat);
        assert(limbs_value(s.skip(k)) == hi + x * pr);
        assert(pk * (hi + x * pr) == pk * hi + x * (pk * pr)) by (nonlinear_arith);
    }
}

/// The lowest limb is the value modulo `2^64`, and decides the parity.
pub proof fn lemma_limbs_value_low(s: Seq<u64>)
    requires
        s.len() > 0,
    ensures
        limbs_value(s) % pow2(64) == s[0],
        limbs_value(s) % 2 == s[0] as nat % 2,
        limbs_value(s) == s[0] as nat + pow2(64) * limbs_value(s.skip(1)),
{
    lemma2_to64();
    lemma_limbs_value_split(s, 1);
    let lo = s.take(1);
    assert(lo.drop_last() =~= Seq::<u64>::empty());
    assert(limbs_value(lo.drop_last()) == 0);
    assert(lo.last() == s[0]);
    assert(lo.len() == 1);
    assert(limbs_value(lo) == 0 + lo.last() as nat * pow2(0));
    assert(limbs_value(lo) == s[0] as nat);
    let hi = limbs_value(s.skip(1)) as int;
    let x = s[0] as int;
    lemma_mod_multiples_vanish(hi, x, pow2(64) as int);
    assert(pow2(64) * limbs_value(s.skip(1)) == hi * pow2(64)) by (nonlinear_arith)
        requires
            hi == limbs_value(s.skip(1)),
    ;
    lemma_small_mod(x as nat, pow2(64));
    assert(pow2(64) as int * hi == 2 * (0x8000_0000_0000_0000 * hi)) by (nonlinear_arith)
        requires
            pow2(64) == 0x1_0000_0000_0000_0000,
    ;
    lemma_mod_multiples_vanish(0x8000_0000_0000_0000 * hi, x, 2);
}

/// The value is zero exactly when every limb is zero.
pub proof fn lemma_limbs_value_zero(s: Seq<u64>)
    ensures
        limbs_value(s) == 0 <==> (forall|i: int| 0 <= i < s.len() ==> s[i] == 0),
    decreases s.len(),
{
    if s.len() > 0 {
        let t = s.drop_last();
        lemma_limbs_value_zero(t);
        let p = pow2((64 * (s.len() - 1)) as nat);
        lemma_pow2_pos((64 * (s.len() - 1)) as nat);
        let x = s.last() as nat;
        assert(x * p == 0 <==> x == 0) by (nonlinear_arith)
            requires
                p > 0,
        ;
        if limbs_value(s) == 0 {
            assert forall|i: int| 0 <= i < s.len() implies s[i] == 0 by {
                if i < s.len() - 1 {
                    assert(t[i] == s[i]);
                }
            }
        }
        if forall|i: int| 0 <= i < s.len() ==> s[i] == 0 {
            assert forall|i: int| 0 <= i < t.len() implies t[i] == 0 by {
                assert(t[i] == s[i]);
            }
        }
    }
}

/// Where limb `i` is the highest that is not zero and has `k` significant
/// bits, the value has `64 i + k` bits.
pub proof fn lemma_bit_length_of_limbs(s: Seq<u64>, i: int, k: nat)
    requires
        0 <= i < s.len(),
        forall|j: int| i < j < s.len() ==> s[j] == 0,
        1 <= k <= 64,
        pow2((k - 1) as nat) <= s[i] < pow2(k),
    ensures
        bit_length(limbs_value(s)) == 64 * i + k,
{
    let lo = s.take(i + 1);
    let hi = s.skip(i + 1);
    lemma_limbs_value_split(s, i + 1);
    lemma_limbs_value_zero(hi);
    assert(pow2((64 * (i + 1)) as nat) * limbs_value(hi) == 0) by (nonlinear_arith)
        requires
            limbs_value(hi) == 0,
    ;
    assert(lo.drop_last() =~= s.take(i));
    lemma_limbs_value_bound(s.take(i));
    let p = pow2((64 * i) as nat);
    let h = s[i] as nat;
    let rest = limbs_value(s.take(i));
    assert(limbs_value(s) == rest + h * p);
    lemma_pow2_adds((k - 1) as nat, (64 * i) as nat);
    lemma_pow2_adds(k, (64 * i) as nat);
    let a = pow2((k - 1) as nat);
    let b = pow2(k);
    assert(a * p <= rest + h * p < b * p) by (nonlinear_arith)
        requires
            a <= h < b,
            0 <= rest < p,
    ;
    lemma_bit_length_unique(limbs_value(s), (64 * i + k) as nat);
}

/// The value of the first `i + 1` limbs is that of the first `i` plus limb `i`
/// at its position.
pub proof fn lemma_limbs_value_take_next(s: Seq<u64>, i: int)
    requires
        0 <= i < s.len(),
    ensures
        limbs_value(s.take(i + 1)) == limbs_value(s.take(i)) + s[i] as nat * pow2((64 * i) as nat),
{
    assert(s.take(i + 1).drop_last() =~= s.take(i));
}

/// Two numbers that agree above position `p` compare as their top digits do,
/// and as their low parts where those are equal.
pub proof fn lemma_less_than_step(a: nat, b: nat, p: nat, x: nat, y: nat)
    requires
        a < p,
        b < p,
    ensures
        (a + x * p < b + y * p) <==> (x < y || (x == y && a < b)),
{
    if x < y {
        assert(a + x * p < b + y * p) by (nonlinear_arith)
            requires
                a < p,
                x + 1 <= y,
        ;
    } else if x == y {
    } else {
        assert(a + x * p >= b + y * p) by (nonlinear_arith)
            requires
                b < p,
                y + 1 <= x,
        ;
    }
}

/// Appending a byte multiplies by 256 and adds the byte.
pub proof fn lemma_be_value_push(s: Seq<u8>, b: u8)
    ensures
        be_value(s.push(b)) == be_value(s) * 256 + b as nat,
{
    assert(s.push(b).drop_last() =~= s);
}

/// A sequence of `n` bytes is below `2^(8 n)`.
pub proof fn lemma_be_value_bound(s: Seq<u8>)
    ensures
        be_value(s) < pow2((8 * s.len()) as nat),
    decreases s.len(),
{
    lemma2_to64();
    if s.len() > 0 {
        lemma_be_value_bound(s.drop_last());
        lemma_pow2_adds((8 * (s.len() - 1)) as nat, 8);
    }
}

/// The value of a concatenation: the high part is shifted past the low part.
pub proof fn lemma_be_value_concat(hi: Seq<u8>, lo: Seq<u8>)
    ensures
        be_value(hi + lo) == be_value(hi) * pow2((8 * lo.len()) as nat) + be_value(lo),
    decreases lo.len(),
{
    lemma2_to64();
    let h = be_value(hi);
    if lo.len() == 0 {
        assert(hi + lo =~= hi);
        assert(h * 1 == h) by (nonlinear_arith);
    } else {
        let t = lo.drop_last();
        lemma_be_value_concat(hi, t);
        assert((hi + lo).drop_last() =~= hi + t);
        assert((hi + lo).last() == lo.last());
        lemma_pow2_adds((8 * t.len()) as nat, 8);
        let p = pow2((8 * t.len()) as nat);
        assert(pow2((8 * lo.len()) as nat) == p * 256);
        assert((h * p) * 256 == h * (p * 256)) by (nonlinear_arith);
    }
}

/// A sequence whose first byte is not zero has a value of at least
/// `2^(8 (n - 1))`.
pub proof fn lemma_be_value_lower_bound(s: Seq<u8>)
    requires
        s.len() > 0,
        s[0] != 0,
    ensures
        be_value(s) >= pow2((8 * (s.len() - 1)) as nat),
{
    let hi = s.take(1);
    let lo = s.skip(1);
    assert(hi + lo =~= s);
    lemma_be_value_concat(hi, lo);
    assert(hi.drop_last() =~= Seq::<u8>::empty());
    assert(be_value(hi.drop_last()) == 0);
    assert(be_value(hi) == s[0] as nat);
    let p = pow2((8 * lo.len()) as nat);
    let x = s[0] as nat;
    assert(x * p >= p) by (nonlinear_arith)
        requires
            x >= 1,
    ;
}

/// Leading zero bytes do not change the value.
pub proof fn lemma_be_value_leading_zeros(s: Seq<u8>, k: int)
    requires
        0 <= k <= s.len(),
        forall|i: int| 0 <= i < k ==> s[i] == 0,
    ensures
        be_value(s) == be_value(s.skip(k)),
    decreases k,
{
    if k > 0 {
        lemma_be_value_leading_zeros(s, k - 1);
        let t = s.skip(k - 1);
        let hi = t.take(1);
        let lo = t.skip(1);
        assert(hi + lo =~= t);
        assert(lo =~= s.skip(k));
        lemma_be_value_concat(hi, lo);
        assert(hi.drop_last() =~= Seq::<u8>::empty());
        assert(be_value(hi.drop_last()) == 0);
        assert(hi.last() == s[k - 1]);
        assert(be_value(hi) == 0);
        assert(0 * pow2((8 * lo.len()) as nat) == 0) by (nonlinear_arith);
    } else {
        assert(s.skip(0) =~= s);
    }
}

/// A value below `2^(8 n)` that is at least `2^(8 (n - 1))` needs
/// `ceil(n / 8)` limbs; zero needs none.
pub proof fn lemma_limbs_needed_of_bytes(v: nat, n: nat)
    requires
        v < pow2(8 * n),
        n > 0 ==> v >= pow2((8 * (n - 1)) as nat),
    ensures
        limbs_needed(v) == (n + 7) / 8,
        n > 0 ==> 8 * (n - 1) < bit_length(v) <= 8 * n,
        n == 0 ==> v == 0,
{
    lemma2_to64();
    if n > 0 {
        let l = bit_length(v);
        lemma_pow2_pos((8 * (n - 1)) as nat);
        lemma_bit_length_bounds(v);
        if l > 8 * n {
            if l - 1 > 8 * n {
                lemma_pow2_strictly_increases(8 * n, (l - 1) as nat);
            }
        }
        if l <= 8 * (n - 1) {
            if l < 8 * (n - 1) {
                lemma_pow2_strictly_increases(l, (8 * (n - 1)) as nat);
            }
        }
    }
}

/// The minimal encoding decodes to the value it encodes, and does not start
/// with a zero byte.
pub proof fn lemma_minimal_be_bytes(v: nat)
    ensures
        be_value(minimal_be_bytes(v)) == v,
        v > 0 ==> minimal_be_bytes(v).len() > 0 && minimal_be_bytes(v)[0] != 0,
        v == 0 ==> minimal_be_bytes(v).len() == 0,
    decreases v,
{
    if v > 0 {
        let hi = minimal_be_bytes(v / 256);
        let b = (v % 256) as u8;
        lemma_minimal_be_bytes(v / 256);
        lemma_be_value_push(hi, b);
        if v / 256 > 0 {
            assert(hi.push(b)[0] == hi[0]);
        } else {
            assert(hi.push(b)[0] == b);
        }
    }
}

/// A byte sequence without a leading zero byte is the minimal encoding of
/// its value.
pub proof fn lemma_minimal_be_bytes_unique(s: Seq<u8>)
    requires
        s.len() == 0 || s[0] != 0,
    ensures
        s == minimal_be_bytes(be_value(s)),
        s.len() > 0 ==> be_value(s) > 0,
    decreases s.len(),
{
    if s.len() == 0 {
        assert(s =~= Seq::<u8>::empty());
    } else {
        let t = s.drop_last();
        let b = s.last();
        if t.len() > 0 {
            assert(t[0] == s[0]);
        }
        lemma_minimal_be_bytes_unique(t);
        let v = be_value(s);
        assert(v == be_value(t) * 256 + b as nat);
        assert(v / 256 == be_value(t));
        assert(v % 256 == b as nat);
        assert(t.push(b) =~= s);
    }
}

/// A value fits in `k` limbs exactly when it is below `2^(64 k)`.
pub proof fn lemma_limbs_needed_le(v: nat, k: nat)
    ensures
        limbs_needed(v) <= k <==> v < pow2(64 * k),
{
    let l = bit_length(v);
    lemma_bit_length_bounds(v);
    lemma_pow2_pos(64 * k);
    if l <= 64 * k {
        if l < 64 * k {
            lemma_pow2_strictly_increases(l, 64 * k);
        }
    } else {
        if l - 1 > 64 * k {
            lemma_pow2_strictly_increases(64 * k, (l - 1) as nat);
        }
    }
}

/// Two limb sequences of one length and one value are the same sequence.
pub proof fn lemma_limbs_value_unique(a: Seq<u64>, b: Seq<u64>)
    requires
        a.len() == b.len(),
        limbs_value(a) == limbs_value(b),
    ensures
        a == b,
    decreases a.len(),
{
    if a.len() == 0 {
        assert(a =~= b);
    } else {
        let p = pow2((64 * (a.len() - 1)) as nat);
        let x = a.last() as nat;
        let y = b.last() as nat;
        lemma_limbs_value_bound(a.drop_last());
        lemma_limbs_value_bound(b.drop_last());
        lemma_less_than_step(limbs_value(a.drop_last()), limbs_value(b.drop_last()), p, x, y);
        lemma_less_than_step(limbs_value(b.drop_last()), limbs_value(a.drop_last()), p, y, x);
        assert(x == y);
        lemma_limbs_value_unique(a.drop_last(), b.drop_last());
        assert(a =~= a.drop_last().push(a.last()));
        assert(b =~= b.drop_last().push(b.last()));
    }
}

/// Modulo an odd number, a factor of two can be cancelled.
pub proof fn lemma_cancel_two(a: int, b: int, n: int)
    requires
        n > 0,
        n % 2 == 1,
        (2 * a) % n == (2 * b) % n,
    ensures
        a % n == b % n,
{
    let d = a - b;
    lemma_mod_equivalence(2 * a, 2 * b, n);
    lemma_fundamental_div_mod(2 * d, n);
    let q = (2 * d) / n;
    let h = n / 2;
    assert(q == 2 * (d - h * q)) by (nonlinear_arith)
        requires
            2 * d == n * q,
            n == 2 * h + 1,
    ;
    let q2 = d - h * q;
    assert(d == q2 * n) by (nonlinear_arith)
        requires
            2 * d == n * q,
            q == 2 * q2,
    ;
    lemma_mod_multiples_basic(q2, n);
    lemma_mod_equivalence(a, b, n);
}

/// Modulo an odd number, a power of two can be cancelled.
pub proof fn lemma_cancel_pow2(a: int, b: int, k: nat, n: int)
    requires
        n > 0,
        n % 2 == 1,
        (a * pow2(k)) % n == (b * pow2(k)) % n,
    ensures
        a % n == b % n,
    decreases k,
{
    lemma2_to64();
    if k == 0 {
        assert(a * 1 == a && b * 1 == b) by (nonlinear_arith);
    } else {
        lemma_pow2_unfold(k);
        let p = pow2((k - 1) as nat) as int;
        assert(a * (2 * p) == (2 * a) * p && b * (2 * p) == (2 * b) * p) by (nonlinear_arith);
        lemma_cancel_pow2(2 * a, 2 * b, (k - 1) as nat, n);
        lemma_cancel_two(a, b, n);
    }
}

/// An odd `n` has at most one negative inverse modulo `r` below `r`.
pub proof fn lemma_neg_inv_unique(a: nat, b: nat, n: nat, r: nat)
    requires
        r > 0,
        a < r,
        b < r,
        (a * n + 1) % r == 0,
        (b * n + 1) % r == 0,
    ensures
        a == b,
{
    let ai = a as int;
    let bi = b as int;
    let ni = n as int;
    let ri = r as int;
    // a * (b n + 1) and b * (a n + 1) are both multiples of r; they differ
    // by a - b.
    lemma_mul_mod_noop_right(ai, bi * ni + 1, ri);
    lemma_mul_mod_noop_right(bi, ai * ni + 1, ri);
    assert(ai * 0 == 0 && bi * 0 == 0) by (nonlinear_arith);
    lemma_small_mod(0, r);
    assert(ai * (bi * ni + 1) - bi * (ai * ni + 1) == ai - bi) by (nonlinear_arith);
    lemma_mod_equivalence(ai * (bi * ni + 1), bi * (ai * ni + 1), ri);
    lemma_mod_equivalence(ai, bi, ri);
    lemma_small_mod(a, r);
    lemma_small_mod(b, r);
}

} // verus!
