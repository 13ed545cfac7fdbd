//! The system clock, read through chrono and clamped into the ranges the
//! persisted text form can carry.

use vstd::prelude::*;
use chrono::Datelike;
use chrono::Timelike;
use crate::models::Timestamp;

verus! {

/// Relies on chrono's `Utc::now` together with the `Datelike` and `Timelike`
/// accessors `year`, `month`, `day`, `hour`, `minute` and `second`: they
/// return the calendar fields of the current UTC time, with month in 1..=12,
/// day in 1..=31, hour in 0..=23, minute and second in 0..=59.
#[verifier::external_body]
fn clock_now_parts() -> (r: (i32, u32, u32, u32, u32, u32))
    ensures
        1 <= r.1 <= 12,
        1 <= r.2 <= 31,
        r.3 <= 23,
        r.4 <= 59,
        r.5 <= 59,
{
    let t = chrono::Utc::now();
    (t.year(), t.month(), t.day(), t.hour(), t.minute(), t.second())
}

/// The current UTC time as a `Timestamp`: the drawn clock fields handed,
/// unchanged but for the year clamp, to `Timestamp::from_clock`, which
/// carries the exact field-by-field contract. Of the clock's values
/// themselves only the documented ranges can be said.
pub fn now_timestamp() -> (t: Timestamp)
    ensures
        t.valid(),
{
    let (y, mo, d, h, mi, s) = clock_now_parts();
    Timestamp::from_clock(y, mo, d, h, mi, s)
}

} // verus!
