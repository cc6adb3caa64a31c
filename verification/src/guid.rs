//! Fresh message and connection ids.

use vstd::prelude::*;

verus! {

/// Whether `b` is a lower-case hex digit byte.
pub open spec fn is_hex_lower(b: u8) -> bool {
    (0x30 <= b <= 0x39) || (0x61 <= b <= 0x66)
}

/// Relies on `uuid::Uuid::new_v4` and its `Display` impl: a random UUID
/// printed as 36 bytes of lower-case hex in five groups, with hyphens at
/// positions 8, 13, 18 and 23. The value is random; nothing more is
/// claimed of it.
#[verifier::external_body]
fn fresh_uuid_hyphenated() -> (r: Vec<u8>)
    ensures
        r@.len() == 36,
        r@[8] == 0x2d && r@[13] == 0x2d && r@[18] == 0x2d && r@[23] == 0x2d,
        forall|i: int|
            0 <= i < 36 && i != 8 && i != 13 && i != 18 && i != 23 ==> is_hex_lower(
                #[trigger] r@[i],
            ),
{
    uuid::Uuid::new_v4().to_string().into_bytes()
}

/// A fresh id: 32 bytes of lower-case hex, the hyphens of the printed UUID
/// stripped.
pub fn fresh_guid() -> (r: Vec<u8>)
    ensures
        r@.len() == 32,
        forall|i: int| 0 <= i < 32 ==> is_hex_lower(#[trigger] r@[i]),
{
    let u = fresh_uuid_hyphenated();
    let mut out: Vec<u8> = Vec::new();
    let mut i: usize = 0;
    while i < 36
        invariant
            u@.len() == 36,
            u@[8] == 0x2d && u@[13] == 0x2d && u@[18] == 0x2d && u@[23] == 0x2d,
            forall|j: int|
                0 <= j < 36 && j != 8 && j != 13 && j != 18 && j != 23 ==> is_hex_lower(
                    #[trigger] u@[j],
                ),
            i <= 36,
            out@.len() == i - (if i > 23 {
                4int
            } else if i > 18 {
                3int
            } else if i > 13 {
                2int
            } else if i > 8 {
                1int
            } else {
                0int
            }),
            forall|j: int| 0 <= j < out@.len() ==> is_hex_lower(#[trigger] out@[j]),
        decreases 36 - i,
    {
        if i != 8 && i != 13 && i != 18 && i != 23 {
            out.push(u[i]);
        }
        i = i + 1;
    }
    out
}

} // verus!
