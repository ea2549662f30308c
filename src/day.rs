//! Calendar days in the fixed UTC+8 offset that the daily rollover uses.

use vstd::prelude::*;

use crate::session::CiYiGameState;

verus! {

/// Seconds east of UTC of the calendar that days are counted in.
pub const CHINA_OFFSET_SECS: i64 = 28800;

/// Seconds in a day.
pub const DAY_SECS: i64 = 86400;

/// Days between the earliest representable time and 1970-01-01, rounded up.
const SHIFT_DAYS: i128 = 106751991167301;

/// The calendar day, counted from 1970-01-01, of Unix time `t` in UTC+8.
pub open spec fn china_day(t: i64) -> int {
    (t + CHINA_OFFSET_SECS) / (DAY_SECS as int)
}

/// Whether, in UTC+8, `now` falls on another calendar day than `start`.
pub fn is_other_china_day(now: i64, start: i64) -> (r: bool)
    ensures
        r == (china_day(now) != china_day(start)),
{
    // Days are counted from a point far enough back that every shifted time
    // is non-negative, which leaves the difference of day numbers unchanged.
    let shift: i128 = SHIFT_DAYS * (DAY_SECS as i128);
    let a: i128 = now as i128 + CHINA_OFFSET_SECS as i128 + shift;
    let b: i128 = start as i128 + CHINA_OFFSET_SECS as i128 + shift;
    let da: u128 = (a as u128) / (DAY_SECS as u128);
    let db: u128 = (b as u128) / (DAY_SECS as u128);
    proof {
        vstd::arithmetic::div_mod::lemma_hoist_over_denominator(
            now as int + CHINA_OFFSET_SECS,
            SHIFT_DAYS as int,
            DAY_SECS as nat,
        );
        vstd::arithmetic::div_mod::lemma_hoist_over_denominator(
            start as int + CHINA_OFFSET_SECS,
            SHIFT_DAYS as int,
            DAY_SECS as nat,
        );
    }
    da != db
}

impl CiYiGameState {
    /// Whether, in UTC+8, `now` falls on another calendar day than the one
    /// the current target was chosen on.
    pub fn is_new_day_in_china_timezone(&self, now: i64) -> (r: bool)
        ensures
            r == (china_day(now) != china_day(self.last_start_time)),
    {
        is_other_china_day(now, self.last_start_time)
    }
}
} // verus!
