//! The time of day in a named time zone.

use crate::date::{
    date_numbered, first_day_number, last_day_number, Date, DateView, UNIX_EPOCH_DAY, UtcMinute,
};
use chrono::{DateTime, Offset, TimeZone};
use chrono_tz::Tz;
use vstd::prelude::*;

verus! {

/// A local date, and the seconds since its midnight.
#[derive(Debug, Clone, Copy, PartialEq, Eq)]
pub struct LocalTime {
    pub date: Date,
    pub second: u32,
}

/// The contents of a `LocalTime`.
pub struct LocalView {
    pub date: DateView,
    pub second: int,
}

impl View for LocalTime {
    type V = LocalView;

    open spec fn view(&self) -> LocalView {
        LocalView { date: self.date@, second: self.second as int }
    }
}

/// The contents of a local time that may be missing.
pub open spec fn local_of(time: Option<LocalTime>) -> Option<LocalView> {
    match time {
        Some(time) => Some(time@),
        None => None,
    }
}

/// How many seconds the clocks of a time zone are ahead of UTC at the moment that lies so many
/// seconds after the start of 1970; nothing where no zone has the name or the moment is out of
/// range.
pub uninterp spec fn zone_offset(zone: Seq<char>, seconds: int) -> Option<int>;

/// `chrono_tz::Tz`: the zone of a name by `FromStr`, and its `offset_from_utc_datetime` at a moment.
/// Both rest on the tables in that crate, so that the offset, named `zone_offset`, is a function of
/// the name and the moment. It is less than a day.
#[verifier::external_body]
fn offset_in_zone(zone: &str, seconds: i64) -> (r: Option<i32>)
    ensures
        match r {
            Some(offset) => {
                &&& zone_offset(zone@, seconds as int) == Some(offset as int)
                &&& -86_400 < offset < 86_400
            },
            None => zone_offset(zone@, seconds as int) is None,
        },
{
    let zone: Tz = zone.parse().ok()?;
    let moment = DateTime::from_timestamp(seconds, 0)?.naive_utc();
    Some(zone.offset_from_utc_datetime(&moment).fix().local_minus_utc())
}

/// What clocks show that stand so many seconds after the start of 1970.
pub open spec fn shown_at(seconds: int) -> Option<LocalView> {
    let number = UNIX_EPOCH_DAY + seconds / 86_400;
    if first_day_number() <= number <= last_day_number() {
        Some(LocalView { date: date_numbered(number), second: seconds % 86_400 })
    } else {
        None
    }
}

/// What clocks show at a moment that are so many seconds ahead of UTC.
pub fn local_at(seconds: i64, offset: i32) -> (r: Option<LocalTime>)
    requires
        i64::MIN <= seconds + offset <= i64::MAX,
    ensures
        local_of(r) == shown_at(seconds + offset),
        r matches Some(time) ==> time.second < 86_400,
{
    let local: i64 = seconds + offset as i64;
    match UtcMinute::from_timestamp(local) {
        Some(moment) => {
            let second: i64 = match local.checked_rem_euclid(86_400) {
                Some(second) => second,
                None => 0,
            };
            Some(LocalTime { date: moment.date, second: second as u32 })
        },
        None => None,
    }
}

/// What the clocks of a time zone show at a moment.
pub open spec fn local_in(zone: Seq<char>, seconds: int) -> Option<LocalView> {
    match zone_offset(zone, seconds) {
        Some(offset) => shown_at(seconds + offset),
        None => None,
    }
}

/// What the clocks of a time zone show at a moment; nothing where no zone has the name or the
/// moment is out of range.
pub fn local_time(zone: &str, seconds: i64) -> (r: Option<LocalTime>)
    requires
        i64::MIN + 86_400 <= seconds <= i64::MAX - 86_400,
    ensures
        local_of(r) == local_in(zone@, seconds as int),
        r matches Some(time) ==> time.second < 86_400,
{
    match offset_in_zone(zone, seconds) {
        Some(offset) => local_at(seconds, offset),
        None => None,
    }
}

} // verus!
