//! Record timestamps of the full-history service: `YYYY-MM-DD hh:mm:ss`.

use vstd::prelude::*;


verus! {

/// A calendar date and time of day, without offset.
#[derive(Debug, Clone, Copy, PartialEq, Eq, Structural)]
pub struct RecordTime {
    pub year: i32,
    pub month: u8,
    pub day: u8,
    pub hour: u8,
    pub minute: u8,
    pub second: u8,
    pub nanosecond: u32,
}

/// `a` is strictly before `b`.
pub open spec fn time_before(a: RecordTime, b: RecordTime) -> bool {
    if a.year != b.year {
        a.year < b.year
    } else if a.month != b.month {
        a.month < b.month
    } else if a.day != b.day {
        a.day < b.day
    } else if a.hour != b.hour {
        a.hour < b.hour
    } else if a.minute != b.minute {
        a.minute < b.minute
    } else if a.second != b.second {
        a.second < b.second
    } else {
        a.nanosecond < b.nanosecond
    }
}

/// Whether `a` is strictly before `b`.
pub fn is_before(a: &RecordTime, b: &RecordTime) -> (r: bool)
    ensures
        r == time_before(*a, *b),
{
    if a.year != b.year {
        a.year < b.year
    } else if a.month != b.month {
        a.month < b.month
    } else if a.day != b.day {
        a.day < b.day
    } else if a.hour != b.hour {
        a.hour < b.hour
    } else if a.minute != b.minute {
        a.minute < b.minute
    } else if a.second != b.second {
        a.second < b.second
    } else {
        a.nanosecond < b.nanosecond
    }
}

/// The layout of record times in the service's answers, in the date
/// library's format-description syntax.
pub const RECORD_TIME_FORMAT: &'static str = "[year]-[month]-[day] [hour]:[minute]:[second]";

/// The year, month, day, hour, minute and second that the date library reads
/// from `s` laid out as `format`, or `None` where it reads none.
pub uninterp spec fn datetime_in_format(s: Seq<char>, format: Seq<char>) -> Option<(i32, u8, u8, u8, u8, u8)>;

/// Relies on `time::PrimitiveDateTime::parse` (with the description that
/// `time::format_description::parse` makes of `format`): the fields it reads.
#[verifier::external_body]
fn parse_datetime(s: &str, format: &str) -> (r: Option<(i32, u8, u8, u8, u8, u8)>)
    ensures
        r == datetime_in_format(s@, format@),
{
    let items = time::format_description::parse(format).ok()?;
    time::PrimitiveDateTime::parse(s, &items)
        .ok()
        .map(|d| (d.year(), d.month() as u8, d.day(), d.hour(), d.minute(), d.second()))
}

/// The time that a set of fields stands for, with no fraction of a second.
pub open spec fn time_of(parts: Option<(i32, u8, u8, u8, u8, u8)>) -> Option<RecordTime> {
    match parts {
        Some((year, month, day, hour, minute, second)) => Some(
            RecordTime { year, month, day, hour, minute, second, nanosecond: 0 },
        ),
        None => None,
    }
}

/// What `s` stands for as a record time.
pub open spec fn record_time_spec(s: Seq<char>) -> Option<RecordTime> {
    time_of(datetime_in_format(s, RECORD_TIME_FORMAT@))
}

impl RecordTime {
    /// The time that read fields stand for.
    pub fn from_parts(parts: Option<(i32, u8, u8, u8, u8, u8)>) -> (r: Option<RecordTime>)
        ensures
            r == time_of(parts),
    {
        match parts {
            Some((year, month, day, hour, minute, second)) => Some(
                RecordTime { year, month, day, hour, minute, second, nanosecond: 0 },
            ),
            None => None,
        }
    }

    /// Parses `YYYY-MM-DD hh:mm:ss`.
    pub fn parse(s: &str) -> (r: Option<RecordTime>)
        ensures
            r == record_time_spec(s@),
    {
        RecordTime::from_parts(parse_datetime(s, RECORD_TIME_FORMAT))
    }
}

} // verus!
