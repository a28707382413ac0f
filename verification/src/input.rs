//! What this crate assumes of `untrusted::Input`, the byte string that a
//! modulus is decoded from. Nothing here is proved: each item states what the
//! source of the `untrusted` crate shows.

use vstd::prelude::*;

verus! {

/// `untrusted::Input`, a borrowed byte string whose bytes can only be read
/// through its own methods. Verus sees nothing inside a value of it.
#[verifier::external_type_specification]
#[verifier::external_body]
pub struct ExInput<'a>(untrusted::Input<'a>);

/// The bytes that an `untrusted::Input` holds, first byte first.
pub uninterp spec fn input_bytes(input: untrusted::Input) -> Seq<u8>;

/// `Input::as_slice_less_safe` hands out the slice that the input wraps: the
/// slice it was made from, unchanged and in the same order.
pub assume_specification<'a>[ untrusted::Input::<'a>::as_slice_less_safe ](
    input: &untrusted::Input<'a>,
) -> (bytes: &'a [u8])
    ensures
        bytes@ == input_bytes(*input),
;

} // verus!
