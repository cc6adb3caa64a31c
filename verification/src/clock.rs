//! Wall-clock timestamps for envelopes.

use vstd::prelude::*;

verus! {

/// Whether `b` may appear in an RFC 3339 timestamp: a digit or one of
/// `-`, `:`, `T`, `.`, `+`, `Z`.
pub open spec fn is_rfc3339_byte(b: u8) -> bool {
    (0x30 <= b <= 0x39) || b == 0x2d || b == 0x3a || b == 0x54 || b == 0x2e || b == 0x2b || b
        == 0x5a
}

/// Relies on `chrono::Utc::now` and `DateTime::to_rfc3339`: the current
/// time printed as RFC 3339 text, which is non-empty and holds only digits
/// and `-`, `:`, `T`, `.`, `+`, `Z`. The value depends on the clock;
/// nothing more is claimed of it.
#[verifier::external_body]
pub(crate) fn now_rfc3339() -> (r: Vec<u8>)
    ensures
        r@.len() >= 1,
        forall|i: int| 0 <= i < r@.len() ==> is_rfc3339_byte(#[trigger] r@[i]),
{
    chrono::Utc::now().to_rfc3339().into_bytes()
}

} // verus!
