//! RFC 3339 rendering of file modification times.

use vstd::prelude::*;

verus! {

/// The RFC 3339 UTC rendering of the instant `secs` seconds plus `nanos`
/// nanoseconds after the Unix epoch; a function of its arguments alone.
pub uninterp spec fn rfc3339_of(secs: int, nanos: int) -> Seq<char>;

/// Relies on chrono's `DateTime::<Utc>::from_timestamp` and `to_rfc3339`:
/// the rendering depends on the two arguments alone (UTC, no locale or
/// environment); `from_timestamp` returns `None` exactly on an
/// out-of-range instant, and in particular returns `Some` for every whole
/// second from the epoch to the end of year 9999 with a nanosecond part
/// below one billion.
#[verifier::external_body]
pub(crate) fn format_rfc3339_utc(secs: i64, nanos: u32) -> (r: Option<String>)
    ensures
        r matches Some(s) ==> s@ == rfc3339_of(secs as int, nanos as int),
        0 <= secs < 253402300800 && nanos < 1000000000 ==> r is Some,
{
    match chrono::DateTime::<chrono::Utc>::from_timestamp(secs, nanos) {
        Some(dt) => Some(dt.to_rfc3339()),
        None => None,
    }
}

} // verus!
