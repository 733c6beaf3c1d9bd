//! Feed timestamps: RFC 3339 text parsed to Unix seconds, with the
//! documented fallbacks of the alert collectors.

use vstd::prelude::*;

verus! {

/// What the RFC 3339 parser accepts, and the Unix timestamp it assigns: a
/// function of the text alone.
pub uninterp spec fn rfc3339_epoch(s: Seq<char>) -> Option<int>;

/// Relies on chrono::DateTime::parse_from_rfc3339 and timestamp(): parses
/// an RFC 3339 string and converts it to Unix seconds.
#[verifier::external_body]
pub fn parse_ts(s: &str) -> (r: Option<i64>)
    ensures
        match r {
            Some(t) => rfc3339_epoch(s@) == Some(t as int),
            None => rfc3339_epoch(s@) is None,
        },
{
    chrono::DateTime::parse_from_rfc3339(s).ok().map(
        |dt| dt.with_timezone(&chrono::Utc).timestamp(),
    )
}

/// The timestamp an optional RFC 3339 field stands for, if any.
pub fn to_epoch(ts: Option<&str>) -> (r: Option<i64>)
    ensures
        match ts {
            Some(s) => match r {
                Some(t) => rfc3339_epoch(s@) == Some(t as int),
                None => rfc3339_epoch(s@) is None,
            },
            None => r is None,
        },
{
    match ts {
        Some(s) => parse_ts(s),
        None => None,
    }
}

/// The timestamp an optional RFC 3339 string field stands for, or the given
/// fallback when the field is absent or unparsable.
pub fn epoch_or(ts: &Option<String>, fallback: i64) -> (r: i64)
    ensures
        r == spec_epoch_or(*ts, fallback),
{
    match ts {
        Some(s) => match parse_ts(s.as_str()) {
            Some(t) => t,
            None => fallback,
        },
        None => fallback,
    }
}

/// The value `epoch_or` returns.
pub open spec fn spec_epoch_or(ts: Option<String>, fallback: i64) -> i64 {
    match ts {
        Some(s) => match rfc3339_epoch(s@) {
            Some(t) => t as i64,
            None => fallback,
        },
        None => fallback,
    }
}

} // verus!
