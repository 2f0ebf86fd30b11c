//! The time of day.
use vstd::prelude::*;

use crate::model::Timestamp;

verus! {

/// The present instant: the machine's clock as `chrono` turns it into a `DateTime<Utc>`, before
/// 1970 too.
///
/// Of the reading only this is claimed: the nanoseconds make up less than a second. When it is,
/// and how two readings compare, is left open.
#[verifier::external_body]
pub(crate) fn utc_now() -> (res: Timestamp)
    ensures
        res.nanos < 1_000_000_000,
{
    let now = chrono::DateTime::<chrono::Utc>::from(std::time::SystemTime::now());
    Timestamp { secs: now.timestamp(), nanos: now.timestamp_subsec_nanos() }
}

} // verus!
