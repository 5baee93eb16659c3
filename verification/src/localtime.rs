use chrono::{Datelike, TimeZone, Timelike};
use chrono_tz::Europe::Prague;
use vstd::prelude::*;
use crate::text::{decimal_chars, decimal_string, pad_left_with_zeros, pad_left_zeros};

verus! {

/// A calendar date and time of day, without time zone.
#[derive(Debug, Clone, Copy, PartialEq, Eq, Structural)]
pub struct LocalDateTime {
    pub year: i32,
    pub month: u32,
    pub day: u32,
    pub hour: u32,
    pub minute: u32,
    pub second: u32,
    pub nanosecond: u32,
}

/// The Europe/Prague local date and time at the instant `wall_ns`
/// (nanoseconds since the Unix epoch), by the tz database compiled into
/// `chrono-tz`.
pub uninterp spec fn prague_local(wall_ns: i64) -> LocalDateTime;

/// `chrono_tz::Europe::Prague.timestamp_nanos(wall_ns).naive_local()`, field
/// by field. `timestamp_nanos` never fails; every `i64` instant lies in years
/// 1677 to 2262, far inside the range `naive_local` accepts. The result is a
/// function of `wall_ns` alone; which date it is is left to the name.
#[verifier::external_body]
pub(crate) fn prague_local_time(wall_ns: i64) -> (t: LocalDateTime)
    ensures
        t == prague_local(wall_ns),
{
    let dt = Prague.timestamp_nanos(wall_ns).naive_local();
    LocalDateTime {
        year: dt.year(),
        month: dt.month(),
        day: dt.day(),
        hour: dt.hour(),
        minute: dt.minute(),
        second: dt.second(),
        nanosecond: dt.nanosecond(),
    }
}

/// Two-digit zero-padded decimal text of `n` (for `n < 100`).
pub open spec fn two_digits(n: u32) -> Seq<char> {
    pad_left_zeros(decimal_chars(n as nat), 2)
}

/// Year text: four zero-padded digits for years 0 to 9999; otherwise the
/// sign followed by the magnitude, zero-padded to four digits.
pub open spec fn year_chars(y: i32) -> Seq<char> {
    if 0 <= y <= 9999 {
        pad_left_zeros(decimal_chars(y as nat), 4)
    } else if y < 0 {
        seq!['-'] + pad_left_zeros(decimal_chars((-(y as int)) as nat), 4)
    } else {
        seq!['+'] + pad_left_zeros(decimal_chars(y as nat), 4)
    }
}

/// Time stamp naming a snapshot: year, month, day, hour, minute and second
/// joined by '-', e.g. "2023-11-14-23-13-20".
pub open spec fn stamp_chars(t: LocalDateTime) -> Seq<char> {
    year_chars(t.year) + seq!['-'] + two_digits(t.month) + seq!['-'] + two_digits(t.day) + seq![
        '-',
    ] + two_digits(t.hour) + seq!['-'] + two_digits(t.minute) + seq!['-'] + two_digits(t.second)
}

fn two_digit_string(n: u32) -> (s: String)
    ensures
        s@ == two_digits(n),
{
    let d = decimal_string(n);
    pad_left_with_zeros(d.as_str(), 2)
}

fn year_string(y: i32) -> (s: String)
    ensures
        s@ == year_chars(y),
{
    if 0 <= y && y <= 9999 {
        let d = decimal_string(y as u32);
        pad_left_with_zeros(d.as_str(), 4)
    } else if y < 0 {
        let magnitude: u32 = (-(y as i64)) as u32;
        let d = decimal_string(magnitude);
        let digits = pad_left_with_zeros(d.as_str(), 4);
        proof {
            reveal_strlit("-");
        }
        let mut s = String::from_str("-");
        s.append(digits.as_str());
        s
    } else {
        let d = decimal_string(y as u32);
        let digits = pad_left_with_zeros(d.as_str(), 4);
        proof {
            reveal_strlit("+");
        }
        let mut s = String::from_str("+");
        s.append(digits.as_str());
        s
    }
}

/// The time stamp of local time `t`, as snapshot files are named.
pub fn stamp_text(t: LocalDateTime) -> (s: String)
    ensures
        s@ == stamp_chars(t),
{
    let mut s = year_string(t.year);
    proof {
        reveal_strlit("-");
    }
    s.append("-");
    s.append(two_digit_string(t.month).as_str());
    s.append("-");
    s.append(two_digit_string(t.day).as_str());
    s.append("-");
    s.append(two_digit_string(t.hour).as_str());
    s.append("-");
    s.append(two_digit_string(t.minute).as_str());
    s.append("-");
    s.append(two_digit_string(t.second).as_str());
    s
}

/// ".png"
pub open spec fn png_suffix() -> Seq<char> {
    seq!['.', 'p', 'n', 'g']
}

/// Path of a snapshot relative to the snapshot directory:
/// `{station_id}/{stamp of the Prague local time}.png`.
pub fn snapshot_relative_path(station_id: u32, taken_at_ns: i64) -> (p: String)
    ensures
        p@ == decimal_chars(station_id as nat) + seq!['/'] + stamp_chars(prague_local(taken_at_ns))
            + png_suffix(),
{
    let mut p = decimal_string(station_id);
    proof {
        reveal_strlit("/");
        reveal_strlit(".png");
    }
    p.append("/");
    let stamp = stamp_text(prague_local_time(taken_at_ns));
    p.append(stamp.as_str());
    p.append(".png");
    p
}

} // verus!
