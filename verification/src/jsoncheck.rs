//! Payload well-formedness: a delivery's embedded payload must be one
//! well-formed JSON value before it reaches the handler; a payload that is
//! not is dropped rather than requeued, so a message that can never be
//! deserialized cannot loop forever.

use vstd::prelude::*;

verus! {

/// Whether the bytes spell one well-formed JSON value, exactly as
/// `serde_json` decides it.
pub uninterp spec fn json_wellformed(s: Seq<u8>) -> bool;

/// Relies on `serde_json::from_slice::<Value>`: whether the bytes parse as
/// one JSON value. The result is a function of the bytes alone.
#[verifier::external_body]
pub(crate) fn json_wellformed_check(s: &Vec<u8>) -> (r: bool)
    ensures
        r == json_wellformed(s@),
{
    serde_json::from_slice::<serde_json::Value>(s).is_ok()
}

} // verus!
