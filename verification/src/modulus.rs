//! The validated modulus and the borrowed view of it that multiplication
//! kernels read.

use crate::bigint::{
    BoxedLimbs, Elem, Nonnegative, One, PublicModulus, SlightlySmallerModulus, SmallerModulus,
};
use crate::bits::BitLength;
use crate::cpu::Features;
use crate::error::KeyRejected;
use crate::input::input_bytes;
use crate::limb::{
    limbs_are_even_constant_time, limbs_less_than_limb_constant_time, limbs_minimal_bits,
    limbs_to_be_bytes, Limb, LimbMask,
};
use crate::montgomery::{montgomery_radix, Unencoded, RR};
use crate::n0::{bn_neg_inv_mod_r_u64, is_neg_inv_mod_r, N0};
use crate::number::{be_value, bit_length, limbs_needed, limbs_value, minimal_be_bytes};
use core::marker::PhantomData;
use vstd::prelude::*;

verus! {

/// The smallest number of limbs of a modulus. The multiplication kernels
/// need at least this width.
pub const MODULUS_MIN_LIMBS: usize = 4;

/// The largest number of limbs of a modulus: 8192 bits.
pub const MODULUS_MAX_LIMBS: usize = 128;

/// Why a limb array of `num_limbs` limbs and the given value is not a
/// modulus, or `None` if it is one. The checks come in this order: too many
/// limbs, too few limbs, an even value, a value below 3.
pub open spec fn rejection(num_limbs: nat, value: nat) -> Option<KeyRejected> {
    if num_limbs > MODULUS_MAX_LIMBS {
        Some(KeyRejected::TooLarge)
    } else if num_limbs < MODULUS_MIN_LIMBS {
        Some(KeyRejected::UnexpectedError)
    } else if value % 2 == 0 {
        Some(KeyRejected::InvalidComponent)
    } else if value < 3 {
        Some(KeyRejected::UnexpectedError)
    } else {
        None
    }
}

/// Why the value of the big-endian `bytes` is not a modulus, or `None` if it
/// is one. The number of limbs is the smallest that holds the value.
pub open spec fn rejection_of_bytes(bytes: Seq<u8>) -> Option<KeyRejected> {
    rejection(limbs_needed(be_value(bytes)), be_value(bytes))
}

/// What holds of the parts of every modulus: the width is supported, the
/// value is odd and at least 3, `n0` is the negative inverse of the value
/// modulo `2^64`, and the bit length is that of the value.
pub open spec fn modulus_parts_wf(limbs: Seq<Limb>, n0: N0, len_bits: BitLength) -> bool {
    &&& MODULUS_MIN_LIMBS <= limbs.len() <= MODULUS_MAX_LIMBS
    &&& limbs_value(limbs) % 2 == 1
    &&& limbs_value(limbs) >= 3
    &&& n0.wf()
    &&& is_neg_inv_mod_r(n0.value(), limbs[0] as nat)
    &&& len_bits.as_nat() == bit_length(limbs_value(limbs))
}

/// The modulus `m` of a ring of integers modulo `m`, with the values needed
/// for Montgomery multiplication modulo `m`. It is odd and at least 3, and
/// is not changed once it is made.
pub struct OwnedModulusWithOne<M> {
    limbs: BoxedLimbs<M>,
    n0: N0,
    #[allow(non_snake_case)]
    oneRR: One<M, RR>,
    len_bits: BitLength,
    cpu_features: Features,
}

impl<M> OwnedModulusWithOne<M> {
    /// The limbs of the modulus, least significant first.
    pub closed spec fn view(&self) -> Seq<Limb> {
        self.limbs@
    }

    /// The modulus as a number.
    pub open spec fn value(&self) -> nat {
        limbs_value(self@)
    }

    /// The stored reduction constant.
    pub closed spec fn n0_spec(&self) -> N0 {
        self.n0
    }

    /// The stored `R*R mod m`.
    pub closed spec fn one_rr_spec(&self) -> One<M, RR> {
        self.oneRR
    }

    /// The stored bit length.
    pub closed spec fn len_bits_spec(&self) -> BitLength {
        self.len_bits
    }

    /// The stored CPU feature token.
    pub closed spec fn cpu_features_spec(&self) -> Features {
        self.cpu_features
    }

    /// The invariant of a modulus: that of its parts, and `oneRR` is
    /// `R*R mod m` in as many limbs as the modulus has.
    pub open spec fn wf(&self) -> bool {
        &&& modulus_parts_wf(self@, self.n0_spec(), self.len_bits_spec())
        &&& self.one_rr_spec()@.len() == self@.len()
        &&& self.one_rr_spec().value() == (montgomery_radix(self@.len()) * montgomery_radix(
            self@.len(),
        )) % self.value()
    }

    /// Builds a modulus from big-endian bytes. Leading zero bytes are
    /// skipped, and the limb array is the shortest for the value.
    pub fn from_be_bytes(input: untrusted::Input, cpu_features: Features) -> (r: Result<
        Self,
        KeyRejected,
    >)
        ensures
            match rejection_of_bytes(input_bytes(input)) {
                Some(e) => r == Err::<Self, KeyRejected>(e),
                None => r matches Ok(m) && m.wf() && m.value() == be_value(input_bytes(input))
                    && m@.len() == limbs_needed(m.value()) && m.cpu_features_spec()
                    == cpu_features,
            },
    {
        let limbs = BoxedLimbs::minimal_width_from_be_bytes(input);
        Self::from_boxed_limbs(limbs, cpu_features)
    }

    /// Builds a modulus from a non-negative integer.
    pub fn from_nonnegative(n: Nonnegative, cpu_features: Features) -> (r: Result<
        Self,
        KeyRejected,
    >)
        ensures
            match rejection(n@.len(), n.value()) {
                Some(e) => r == Err::<Self, KeyRejected>(e),
                None => r matches Ok(m) && m.wf() && m@ == n@ && m.cpu_features_spec()
                    == cpu_features,
            },
    {
        let limbs = BoxedLimbs::new_unchecked(n.into_limbs());
        Self::from_boxed_limbs(limbs, cpu_features)
    }

    /// Builds a modulus from an element of the ring of a larger modulus `L`,
    /// taking the element's limbs as they are.
    pub fn from_elem<L>(elem: Elem<L, Unencoded>, cpu_features: Features) -> (r: Result<
        Self,
        KeyRejected,
    >) where M: SlightlySmallerModulus<L>
        ensures
            match rejection(elem@.len(), elem.value()) {
                Some(e) => r == Err::<Self, KeyRejected>(e),
                None => r matches Ok(m) && m.wf() && m@ == elem@ && m.cpu_features_spec()
                    == cpu_features,
            },
    {
        Self::from_boxed_limbs(
            BoxedLimbs::minimal_width_from_unpadded(elem.limbs()),
            cpu_features,
        )
    }

    /// Checks `n` and, if it is a modulus, derives `n0`, the bit length and
    /// `R*R mod n`. Nothing is kept of an `n` that is turned down.
    pub fn from_boxed_limbs(n: BoxedLimbs<M>, cpu_features: Features) -> (r: Result<
        Self,
        KeyRejected,
    >)
        ensures
            match rejection(n@.len(), n.value()) {
                Some(e) => r == Err::<Self, KeyRejected>(e),
                None => r matches Ok(m) && m.wf() && m@ == n@ && m.cpu_features_spec()
                    == cpu_features,
            },
    {
        if n.len() > MODULUS_MAX_LIMBS {
            return Err(KeyRejected::TooLarge);
        }
        if n.len() < MODULUS_MIN_LIMBS {
            return Err(KeyRejected::UnexpectedError);
        }
        if limbs_are_even_constant_time(n.as_slice()) != LimbMask::False {
            return Err(KeyRejected::InvalidComponent);
        }
        if limbs_less_than_limb_constant_time(n.as_slice(), 3) != LimbMask::False {
            return Err(KeyRejected::UnexpectedError);
        }
        // n mod r is the lowest limb of n, as r is 2^64.
        let n_mod_r: u64 = n.as_slice()[0];
        proof {
            crate::number::lemma_limbs_value_low(n@);
        }
        let n0 = N0::from(bn_neg_inv_mod_r_u64(n_mod_r));
        let len_bits = limbs_minimal_bits(n.as_slice());
        #[allow(non_snake_case)]
        let oneRR = {
            let partial = Modulus {
                limbs: n.as_slice(),
                n0: n0.clone(),
                len_bits,
                m: PhantomData,
                cpu_features,
            };
            One::newRR(&partial)
        };
        Ok(Self { limbs: n, n0, oneRR, len_bits, cpu_features })
    }

    /// `R*R mod m`: the value that takes a number into Montgomery form.
    #[allow(non_snake_case)]
    pub fn oneRR(&self) -> (r: &One<M, RR>)
        ensures
            *r == self.one_rr_spec(),
    {
        &self.oneRR
    }

    /// The modulus as an element of the ring of the larger modulus `l`:
    /// its limbs, padded with zero limbs to the width of `l`.
    pub fn to_elem<L>(&self, l: &Modulus<L>) -> (r: Elem<L, Unencoded>) where M: SmallerModulus<L>
        requires
            self@.len() <= l@.len(),
        ensures
            r@ == self@ + Seq::new((l@.len() - self@.len()) as nat, |i: int| 0u64),
            r.value() == self.value(),
    {
        let mut limbs: Vec<Limb> = Vec::new();
        let n = self.limbs.len();
        let width = l.limbs().len();
        let src = self.limbs.as_slice();
        let mut i: usize = 0;
        while i < width
            invariant
                i <= width,
                n <= width,
                n == src@.len(),
                limbs@ =~= Seq::new(i as nat, |j: int| if j < n { src@[j] } else { 0u64 }),
            decreases width - i,
        {
            if i < n {
                limbs.push(src[i]);
            } else {
                limbs.push(0);
            }
            i += 1;
        }
        proof {
            let pad = Seq::new((width - n) as nat, |i: int| 0u64);
            assert(limbs@ =~= src@ + pad);
            crate::number::lemma_limbs_value_split(limbs@, n as int);
            assert(limbs@.take(n as int) =~= src@);
            assert(limbs@.skip(n as int) =~= pad);
            crate::number::lemma_limbs_value_zero(pad);
            assert(vstd::arithmetic::power2::pow2((64 * n) as nat) * 0 == 0) by (nonlinear_arith);
        }
        Elem::from_boxed_limbs(BoxedLimbs::new_unchecked(limbs))
    }

    /// A view of the modulus for the multiplication kernels.
    pub fn modulus(&self) -> (r: Modulus<M>)
        ensures
            r@ == self@,
            r.n0_spec() == self.n0_spec(),
            r.len_bits_spec() == self.len_bits_spec(),
            r.cpu_features_spec() == self.cpu_features_spec(),
            self.wf() ==> r.wf(),
    {
        Modulus {
            limbs: self.limbs.as_slice(),
            n0: self.n0.clone(),
            len_bits: self.len_bits,
            m: PhantomData,
            cpu_features: self.cpu_features,
        }
    }

    /// The number of bits of the modulus, not counting leading zero bits.
    pub fn len_bits(&self) -> (r: BitLength)
        ensures
            r == self.len_bits_spec(),
    {
        self.len_bits
    }
}

impl<M: PublicModulus> OwnedModulusWithOne<M> {
    /// The text that stands for a modulus in diagnostic output. It names the
    /// kind of value and, on purpose, shows nothing of the value itself.
    pub fn debug_text(&self) -> (text: &'static str)
        ensures
            text@ == "Modulus"@,
    {
        "Modulus"
    }

    /// The modulus as big-endian bytes, without leading zero bytes.
    pub fn be_bytes(&self) -> (bytes: Vec<u8>)
        ensures
            bytes@ == minimal_be_bytes(self.value()),
    {
        limbs_to_be_bytes(self.limbs.as_slice())
    }
}

impl<M: PublicModulus> Clone for OwnedModulusWithOne<M> {
    fn clone(&self) -> (r: Self)
        ensures
            r@ == self@,
            r.n0_spec() == self.n0_spec(),
            r.one_rr_spec()@ == self.one_rr_spec()@,
            r.len_bits_spec() == self.len_bits_spec(),
            r.cpu_features_spec() == self.cpu_features_spec(),
            self.wf() ==> r.wf(),
    {
        Self {
            limbs: self.limbs.clone(),
            n0: self.n0.clone(),
            oneRR: self.oneRR.clone(),
            len_bits: self.len_bits,
            cpu_features: self.cpu_features,
        }
    }
}

/// A borrowed view of a modulus: its limbs, `n0`, its bit length and the CPU
/// feature token. It cannot outlive the modulus it was taken from.
pub struct Modulus<'a, M> {
    limbs: &'a [Limb],
    n0: N0,
    len_bits: BitLength,
    m: PhantomData<M>,
    cpu_features: Features,
}

impl<M> Modulus<'_, M> {
    /// The limbs of the modulus, least significant first.
    pub closed spec fn view(&self) -> Seq<Limb> {
        self.limbs@
    }

    /// The modulus as a number.
    pub open spec fn value(&self) -> nat {
        limbs_value(self@)
    }

    /// The reduction constant in the view.
    pub closed spec fn n0_spec(&self) -> N0 {
        self.n0
    }

    /// The bit length in the view.
    pub closed spec fn len_bits_spec(&self) -> BitLength {
        self.len_bits
    }

    /// The CPU feature token in the view.
    pub closed spec fn cpu_features_spec(&self) -> Features {
        self.cpu_features
    }

    /// The invariant of the parts that the view holds.
    pub open spec fn wf(&self) -> bool {
        modulus_parts_wf(self@, self.n0_spec(), self.len_bits_spec())
    }

    /// The element 0, as wide as the modulus.
    pub fn zero<E>(&self) -> (r: Elem<M, E>)
        ensures
            r@ == Seq::new(self@.len(), |i: int| 0u64),
            r.value() == 0,
    {
        Elem::from_boxed_limbs(BoxedLimbs::zero(self.limbs.len()))
    }

    /// The element 1, as wide as the modulus.
    pub fn one(&self) -> (r: Elem<M, Unencoded>)
        requires
            self@.len() > 0,
        ensures
            r@ == Seq::new(self@.len(), |i: int| 0u64).update(0, 1u64),
            r.value() == 1,
    {
        let mut limbs: Vec<Limb> = BoxedLimbs::<M>::zero(self.limbs.len()).into_limbs();
        limbs.set(0, 1);
        proof {
            vstd::arithmetic::power2::lemma2_to64();
            crate::number::lemma_limbs_value_low(limbs@);
            crate::number::lemma_limbs_value_zero(limbs@.skip(1));
            assert(vstd::arithmetic::power2::pow2(64) * 0 == 0) by (nonlinear_arith);
        }
        Elem::from_boxed_limbs(BoxedLimbs::new_unchecked(limbs))
    }

    /// The limbs of the modulus.
    #[inline]
    pub fn limbs(&self) -> (r: &[Limb])
        ensures
            r@ == self@,
    {
        self.limbs
    }

    /// The reduction constant.
    #[inline]
    pub fn n0(&self) -> (r: &N0)
        ensures
            *r == self.n0_spec(),
    {
        &self.n0
    }

    /// The number of bits of the modulus, not counting leading zero bits.
    pub fn len_bits(&self) -> (r: BitLength)
        ensures
            r == self.len_bits_spec(),
    {
        self.len_bits
    }

    /// The CPU feature token.
    #[inline]
    pub fn cpu_features(&self) -> (r: Features)
        ensures
            r == self.cpu_features_spec(),
    {
        self.cpu_features
    }
}

} // verus!
