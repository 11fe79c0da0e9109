//! Fresh identifiers for sessions, snapshots and file versions.

use vstd::prelude::*;

verus! {

/// A lowercase hexadecimal digit.
pub open spec fn is_hex_char(c: char) -> bool {
    0x30 <= c as u32 <= 0x39 || 0x61 <= c as u32 <= 0x66
}

/// The text of an identifier: 36 characters, hyphens after the 8th, 12th,
/// 16th and 20th digit, lowercase hexadecimal digits everywhere else.
pub open spec fn is_id_text(text: Seq<char>) -> bool {
    &&& text.len() == 36
    &&& forall|i: int|
        0 <= i < 36 ==> if i == 8 || i == 13 || i == 18 || i == 23 {
            #[trigger] text[i] == '-'
        } else {
            is_hex_char(#[trigger] text[i])
        }
}

/// Calls `uuid::Uuid::new_v4` and renders the identifier as text with its
/// `Display` form, which is the hyphenated lowercase form. The identifier
/// is random, so only that form is promised.
#[verifier::external_body]
pub(crate) fn random_id() -> (id: String)
    ensures
        is_id_text(id@),
{
    uuid::Uuid::new_v4().to_string()
}

} // verus!
