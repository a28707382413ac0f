//! The token that stands for the detected CPU features.

use vstd::prelude::*;

verus! {

/// An opaque, copyable token that says which optional CPU features may be
/// used. This crate hands it on unchanged and never looks inside.
#[derive(Clone, Copy, Debug)]
pub struct Features(());

/// Returns the token for the current CPU.
pub fn features() -> Features {
    Features(())
}

} // verus!
