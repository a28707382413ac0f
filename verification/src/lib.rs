//! Validated moduli for Montgomery arithmetic on multi-limb integers.
//!
//! A modulus is built from big-endian bytes or from limbs, checked for size,
//! parity and magnitude, and stored together with the Montgomery reduction
//! constant `n0` and the value `R*R mod n`.

pub mod number;
pub mod error;
pub mod cpu;
pub mod bits;
pub mod limb;
pub mod n0;
pub mod input;
pub mod montgomery;
pub mod bigint;
pub mod modulus;
pub mod laws;
