//! Limb arrays tagged with the modulus they belong to and with their
//! encoding. The tags exist at compile time only: a value of one modulus is
//! not accepted where one of another modulus is expected.

use crate::input::input_bytes;
use crate::limb::{limbs_double_mod, limbs_from_be_bytes, Limb};
use crate::modulus::Modulus;
use crate::montgomery::{montgomery_radix, RR};
use crate::number::{be_value, limbs_needed, limbs_value};
use core::marker::PhantomData;
use vstd::arithmetic::div_mod::{lemma_mul_mod_noop_right, lemma_small_mod};
use vstd::arithmetic::power2::*;
use vstd::prelude::*;

verus! {

/// Marks a modulus whose value is public, so that it may be copied and
/// written out.
pub trait PublicModulus {}

/// Marks `Self` as a modulus that is smaller than the modulus `L`.
pub trait SmallerModulus<L> {}

/// Marks `Self` as a modulus that is smaller than `L` and has as many bits.
pub trait SlightlySmallerModulus<L>: SmallerModulus<L> {}

/// A limb array, least significant limb first, that belongs to the modulus
/// tagged `M`.
pub struct BoxedLimbs<M> {
    limbs: Vec<Limb>,
    m: PhantomData<M>,
}

impl<M> BoxedLimbs<M> {
    /// The limbs, least significant first.
    pub closed spec fn view(&self) -> Seq<Limb> {
        self.limbs@
    }

    /// The number that the limbs stand for.
    pub open spec fn value(&self) -> nat {
        limbs_value(self@)
    }

    /// `len` limbs, all zero.
    pub fn zero(len: usize) -> (r: Self)
        ensures
            r@ == Seq::new(len as nat, |i: int| 0u64),
            r.value() == 0,
    {
        let mut limbs: Vec<Limb> = Vec::new();
        let mut i: usize = 0;
        while i < len
            invariant
                i <= len,
                limbs@ =~= Seq::new(i as nat, |i: int| 0u64),
            decreases len - i,
        {
            limbs.push(0);
            i += 1;
        }
        proof {
            crate::number::lemma_limbs_value_zero(limbs@);
        }
        BoxedLimbs { limbs, m: PhantomData }
    }

    /// Takes `limbs` as they are, without any check.
    pub fn new_unchecked(limbs: Vec<Limb>) -> (r: Self)
        ensures
            r@ == limbs@,
    {
        BoxedLimbs { limbs, m: PhantomData }
    }

    /// Decodes big-endian bytes into the shortest limb array of their value:
    /// leading zero bytes are skipped, and the value zero has no limbs.
    pub fn minimal_width_from_be_bytes(input: untrusted::Input) -> (r: Self)
        ensures
            r.value() == be_value(input_bytes(input)),
            r@.len() == limbs_needed(r.value()),
    {
        BoxedLimbs { limbs: limbs_from_be_bytes(input.as_slice_less_safe()), m: PhantomData }
    }

    /// Copies `limbs`, which the caller holds to be free of padding.
    pub fn minimal_width_from_unpadded(limbs: &[Limb]) -> (r: Self)
        ensures
            r@ == limbs@,
    {
        let mut copy: Vec<Limb> = Vec::new();
        let mut i: usize = 0;
        while i < limbs.len()
            invariant
                i <= limbs@.len(),
                copy@ =~= limbs@.take(i as int),
            decreases limbs@.len() - i,
        {
            copy.push(limbs[i]);
            i += 1;
        }
        assert(limbs@.take(i as int) =~= limbs@);
        BoxedLimbs { limbs: copy, m: PhantomData }
    }

    /// The number of limbs.
    pub fn len(&self) -> (n: usize)
        ensures
            n == self@.len(),
    {
        self.limbs.len()
    }

    /// The limbs as a slice.
    pub fn as_slice(&self) -> (s: &[Limb])
        ensures
            s@ == self@,
    {
        self.limbs.as_slice()
    }

    /// Gives up the tag and returns the limbs.
    pub fn into_limbs(self) -> (limbs: Vec<Limb>)
        ensures
            limbs@ == self@,
    {
        self.limbs
    }
}

impl<M> Clone for BoxedLimbs<M> {
    fn clone(&self) -> (r: Self)
        ensures
            r@ == self@,
    {
        Self::minimal_width_from_unpadded(self.limbs.as_slice())
    }
}

/// A value modulo the modulus tagged `M`, in the encoding tagged `E`.
pub struct Elem<M, E> {
    limbs: BoxedLimbs<M>,
    encoding: PhantomData<E>,
}

impl<M, E> Elem<M, E> {
    /// The limbs, least significant first.
    pub closed spec fn view(&self) -> Seq<Limb> {
        self.limbs@
    }

    /// The number that the limbs stand for.
    pub open spec fn value(&self) -> nat {
        limbs_value(self@)
    }

    /// Tags `limbs` with the encoding `E`.
    pub fn from_boxed_limbs(limbs: BoxedLimbs<M>) -> (r: Self)
        ensures
            r@ == limbs@,
    {
        Elem { limbs, encoding: PhantomData }
    }

    /// The limbs as a slice.
    pub fn limbs(&self) -> (s: &[Limb])
        ensures
            s@ == self@,
    {
        self.limbs.as_slice()
    }
}

impl<M, E> Clone for Elem<M, E> {
    fn clone(&self) -> (r: Self)
        ensures
            r@ == self@,
    {
        Elem { limbs: self.limbs.clone(), encoding: PhantomData }
    }
}

/// Replaces `a` by `2 a mod m`.
pub fn elem_double<M, E>(a: &mut Elem<M, E>, m: &Modulus<M>)
    requires
        old(a)@.len() == m@.len(),
        old(a).value() < m.value(),
    ensures
        final(a)@.len() == m@.len(),
        final(a).value() == (2 * old(a).value()) % m.value(),
{
    limbs_double_mod(&mut a.limbs.limbs, m.limbs());
}

/// The number 1 modulo the modulus tagged `M`, in the encoding tagged `E`.
pub struct One<M, E>(Elem<M, E>);

impl<M, E> One<M, E> {
    /// The limbs, least significant first.
    pub closed spec fn view(&self) -> Seq<Limb> {
        self.0@
    }

    /// The number that the limbs stand for.
    pub open spec fn value(&self) -> nat {
        limbs_value(self@)
    }

    /// The value as an element.
    pub fn as_elem(&self) -> (e: &Elem<M, E>)
        ensures
            e@ == self@,
    {
        &self.0
    }
}

impl<M> One<M, RR> {
    /// Computes `R*R mod m`, where `R = 2^(64 w)` for a modulus of `w` limbs.
    ///
    /// Starting from 1, the value is doubled modulo `m` once for every bit of
    /// `R*R`. The work depends on the number of limbs only, not on the value
    /// of `m`.
    #[allow(non_snake_case)]
    pub fn newRR(m: &Modulus<M>) -> (r: Self)
        requires
            m.wf(),
        ensures
            r@.len() == m@.len(),
            r.value() == (montgomery_radix(m@.len()) * montgomery_radix(m@.len())) % m.value(),
    {
        let w = m.limbs().len();
        assert(w <= crate::modulus::MODULUS_MAX_LIMBS);
        let doublings: usize = 128 * w;
        let mut acc: Elem<M, RR> = m.zero();
        acc.limbs.limbs.set(0, 1);
        let mut i: usize = 0;
        proof {
            lemma2_to64();
            crate::number::lemma_limbs_value_low(acc@);
            crate::number::lemma_limbs_value_zero(acc@.skip(1));
            assert(pow2(64) * 0 == 0) by (nonlinear_arith);
            lemma_small_mod(1, m.value());
        }
        while i < doublings
            invariant
                i <= doublings,
                doublings == 128 * m@.len(),
                m.wf(),
                acc@.len() == m@.len(),
                acc.value() == pow2(i as nat) % m.value(),
            decreases doublings - i,
        {
            proof {
                lemma_pow2_unfold((i + 1) as nat);
                lemma_mul_mod_noop_right(2, pow2(i as nat) as int, m.value() as int);
            }
            elem_double(&mut acc, m);
            i += 1;
        }
        proof {
            lemma_pow2_adds(64 * m@.len(), 64 * m@.len());
            assert(i as nat == 64 * m@.len() + 64 * m@.len());
        }
        One(acc)
    }
}

impl<M, E> Clone for One<M, E> {
    fn clone(&self) -> (r: Self)
        ensures
            r@ == self@,
    {
        One(self.0.clone())
    }
}

/// A non-negative integer in its shortest limb form, not tied to a modulus.
pub struct Nonnegative {
    limbs: Vec<Limb>,
}

impl Nonnegative {
    /// The limbs, least significant first.
    pub closed spec fn view(&self) -> Seq<Limb> {
        self.limbs@
    }

    /// The number that the limbs stand for.
    pub open spec fn value(&self) -> nat {
        limbs_value(self@)
    }

    /// No limb is spent on leading zeros.
    pub open spec fn wf(&self) -> bool {
        self@.len() == limbs_needed(self.value())
    }

    /// Decodes big-endian bytes. Leading zero bytes are skipped.
    pub fn from_be_bytes(input: untrusted::Input) -> (r: Self)
        ensures
            r.wf(),
            r.value() == be_value(input_bytes(input)),
    {
        Nonnegative { limbs: limbs_from_be_bytes(input.as_slice_less_safe()) }
    }

    /// Returns the limbs.
    pub fn into_limbs(self) -> (limbs: Vec<Limb>)
        ensures
            limbs@ == self@,
    {
        self.limbs
    }
}

} // verus!
