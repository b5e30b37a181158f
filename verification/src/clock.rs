//! The current time, read through the `time` crate.

use vstd::prelude::*;

verus! {

/// The current UTC time in nanoseconds since the Unix epoch, from
/// `time::OffsetDateTime::now_utc()` and `unix_timestamp_nanos`. Nothing is claimed of
/// the value: it is the time of the call.
#[verifier::external_body]
pub(crate) fn now_utc_nanos() -> i128 {
    time::OffsetDateTime::now_utc().unix_timestamp_nanos()
}

} // verus!
