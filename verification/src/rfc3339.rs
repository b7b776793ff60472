//! The one conversion the library takes from an outside crate: reading
//! an RFC 3339 date-time string into nanoseconds since the Unix epoch
//! plus the written UTC offset.

use vstd::prelude::*;

verus! {

/// What chrono reads out of an RFC 3339 string: `Some((epoch_nanos,
/// offset_secs))` for a valid date-time whose moment fits in `i64`
/// nanoseconds, `None` otherwise.  The result is a function of the
/// characters alone.
pub uninterp spec fn rfc3339_instant(s: Seq<char>) -> Option<(i64, i32)>;

/// Relies on `chrono::DateTime::parse_from_rfc3339` (with
/// `timestamp_nanos_opt` and `FixedOffset::local_minus_utc` reading the
/// parsed value out): the result depends on the input characters alone.
#[verifier::external_body]
pub fn parse_rfc3339(chars: &Vec<char>, from: usize, to: usize) -> (r: Option<(i64, i32)>)
    requires
        from <= to <= chars@.len(),
    ensures
        r == rfc3339_instant(chars@.subrange(from as int, to as int)),
{
    let s: std::string::String = chars[from..to].iter().collect();
    match chrono::DateTime::parse_from_rfc3339(&s) {
        Ok(d) => match d.timestamp_nanos_opt() {
            Some(n) => Some((n, d.offset().local_minus_utc())),
            None => None,
        },
        Err(_) => None,
    }
}

} // verus!
