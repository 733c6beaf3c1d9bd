//! Stable identifiers: feed-native ids are kept, missing ones are freshly
//! generated.

use vstd::prelude::*;
use vstd::string::StrSliceExecFns;

verus! {

/// Relies on uuid::Uuid::new_v4 and its Display rendering: a random
/// version-4 identifier printed in the 36-character hyphenated form.
/// Nothing more is assumed of a random value.
#[verifier::external_body]
fn fresh_uuid() -> (r: String)
    ensures
        r@.len() == 36,
{
    uuid::Uuid::new_v4().to_string()
}

/// The stable identifier of a record: the feed-native id when it is present
/// and non-empty, otherwise a freshly generated 36-character identifier.
pub fn stable_id(native: Option<String>) -> (r: String)
    ensures
        match native {
            Some(s) => if s@.len() > 0 {
                r@ == s@
            } else {
                r@.len() == 36
            },
            None => r@.len() == 36,
        },
{
    match native {
        Some(s) => {
            if s.as_str().unicode_len() > 0 {
                s
            } else {
                fresh_uuid()
            }
        },
        None => fresh_uuid(),
    }
}

} // verus!
