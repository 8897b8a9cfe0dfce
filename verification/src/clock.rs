use vstd::prelude::*;

verus! {

/// Relies on `chrono::Utc::now` and `chrono::DateTime::timestamp_nanos_opt`:
/// the number of non-leap nanoseconds since the Unix epoch, or 0 where that
/// count does not fit in an `i64`. The value depends on the wall clock, so
/// nothing is promised of it.
#[verifier::external_body]
pub(crate) fn now_timestamp_nanos() -> i64 {
    chrono::Utc::now().timestamp_nanos_opt().unwrap_or(0)
}

} // verus!
