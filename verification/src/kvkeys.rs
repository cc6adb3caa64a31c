//! Key conventions of the key-value store helpers: a key whose first
//! character is a decimal digit up to the database limit selects that
//! database; every other key falls back to database zero.

use vstd::prelude::*;
use vstd::string::StrSliceExecFns;

verus! {

/// The highest database index the store offers.
pub const MAX_DB_INDEX: u8 = 15;

/// The database index a key selects.
pub open spec fn spec_db_index(key: Seq<char>) -> u8 {
    if key.len() > 0 && '0' <= key[0] <= '9' && key[0] as u32 - 0x30 <= MAX_DB_INDEX as u32 {
        (key[0] as u32 - 0x30) as u8
    } else {
        0
    }
}

/// The database index a key selects: its leading digit, when it has one
/// within the database limit, else zero.
pub fn get_db_index_from_key(key: &str) -> (r: u8)
    ensures
        r == spec_db_index(key@),
        r <= MAX_DB_INDEX,
{
    if key.unicode_len() == 0 {
        return 0;
    }
    let c = key.get_char(0);
    if '0' <= c && c <= '9' {
        let d = (c as u32) as u8 - 0x30;
        if d <= MAX_DB_INDEX {
            return d;
        }
    }
    0
}

} // verus!
