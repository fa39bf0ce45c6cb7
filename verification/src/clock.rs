//! The wall clock, as milliseconds since the Unix epoch.

use std::time::{Duration, SystemTime};
use vstd::prelude::*;

verus! {

/// `std::time::SystemTime`, a reading of the system clock. It is passed
/// on unread.
#[verifier::external_type_specification]
#[verifier::external_body]
pub struct ExSystemTime(SystemTime);

/// `SystemTime::now` reads the system clock. Nothing is claimed of what it
/// returns.
pub assume_specification[ SystemTime::now ]() -> (t: SystemTime)
;

/// `Duration::as_millis` gives the whole milliseconds in a duration.
/// Nothing is claimed of the number.
pub assume_specification[ Duration::as_millis ](d: &Duration) -> (ms: u128)
;

/// The time from the Unix epoch to `t`, or `None` where `t` lies before the
/// epoch. Calls `SystemTime::duration_since` with `UNIX_EPOCH`. Nothing is
/// claimed of the result.
#[verifier::external_body]
fn since_epoch(t: &SystemTime) -> (d: Option<Duration>)
{
    t.duration_since(std::time::UNIX_EPOCH).ok()
}

/// The time that a reading of the clock stands for, in milliseconds
/// since the Unix epoch: 0 where the clock is set before the epoch and
/// gives no reading, `i64::MAX` where the reading is beyond the range of
/// `i64`, else the reading itself.
pub open spec fn reading_millis(reading: Option<u128>) -> i64 {
    match reading {
        None => 0,
        Some(ms) => if ms > i64::MAX {
            i64::MAX
        } else {
            ms as i64
        },
    }
}

/// The time that a reading of the clock stands for.
pub fn millis_of(reading: Option<u128>) -> (ms: i64)
    ensures
        ms == reading_millis(reading),
{
    match reading {
        None => 0,
        Some(ms) => {
            if ms > 0x7fff_ffff_ffff_ffffu128 {
                i64::MAX
            } else {
                ms as i64
            }
        },
    }
}

/// Milliseconds since the Unix epoch, now: what `millis_of` makes of the
/// reading of the system clock. Whatever the clock says, the result is not
/// negative.
pub fn now_millis() -> (ms: i64)
    ensures
        ms >= 0,
{
    let t = SystemTime::now();
    let reading = match since_epoch(&t) {
        None => None,
        Some(d) => Some(d.as_millis()),
    };
    millis_of(reading)
}

} // verus!
