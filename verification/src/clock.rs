//! The wall clock, read through the outside time library.
use vstd::prelude::*;

use crate::schema::Timestamp;

verus! {

/// Relies on chrono's `Local::now` and `DateTime::timestamp_micros`: reads
/// the wall clock as microseconds since the Unix epoch. Nothing is assumed
/// of the value; callers must hold for every instant it may return.
#[verifier::external_body]
pub(crate) fn now_timestamp() -> Timestamp {
    Timestamp { micros: chrono::Local::now().naive_utc().and_utc().timestamp_micros() }
}

} // verus!
