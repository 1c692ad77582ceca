use vstd::prelude::*;

verus! {

/// Calls `chrono::Utc::now` and reads the instant as milliseconds since the
/// Unix epoch. Trusted, and nothing is claimed of the number: it is whatever
/// the system clock says. `Utc::now` panics where the system clock stands
/// before 1970.
#[verifier::external_body]
pub(crate) fn now_millis() -> i64 {
    chrono::Utc::now().timestamp_millis()
}

} // verus!
