//! The one place the real clock enters: everything else takes a timestamp
//! argument, so the session logic runs the same against a simulated clock.

use vstd::prelude::*;

use chrono::{Datelike, Timelike};

use crate::timestamp::Timestamp;

verus! {

/// Relies on chrono: `Local::now().fixed_offset()` read out through the
/// `Datelike`/`Timelike` accessors, which document month in 1..=12, day in
/// 1..=31, hour in 0..=23, minute and second in 0..=59; the year and the
/// offset in seconds are returned raw, the offset being strictly within a
/// day as `FixedOffset` guarantees.
#[verifier::external_body]
fn now_parts() -> (r: (i32, u32, u32, u32, u32, u32, i32))
    ensures
        1 <= r.1 <= 12,
        1 <= r.2 <= 31,
        r.3 <= 23,
        r.4 <= 59,
        r.5 <= 59,
        -86400 < r.6 < 86400,
{
    let now = chrono::Local::now().fixed_offset();
    (
        now.year(),
        now.month(),
        now.day(),
        now.hour(),
        now.minute(),
        now.second(),
        now.offset().local_minus_utc(),
    )
}

/// The local wall-clock time as a well-formed timestamp.  `None` only if
/// the system clock reads outside the representable years or an impossible
/// calendar date.
pub fn now_local() -> (r: Option<Timestamp>)
    ensures
        r matches Some(t) ==> t.valid(),
{
    let (year, month, day, hour, minute, second, offset_seconds) = now_parts();
    Timestamp::from_parts(year, month, day, hour, minute, second, offset_seconds)
}

} // verus!
