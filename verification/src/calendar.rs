//! Calendar dates and clock times as they appear in the input text
//! (`YYYYMMDD` date groups, `HHMMSS` time groups), and the canonical
//! `YYYY-MM-DD HH:MM:SS` timestamp layout of the output.

use vstd::prelude::*;
use crate::digits::{all_bytes_digits, all_digits, digit_val, is_digit};

verus! {

/// Gregorian leap-year rule.
pub open spec fn is_leap_year(y: int) -> bool {
    (y % 4 == 0 && y % 100 != 0) || y % 400 == 0
}

/// Number of days in month `m` of year `y` (months are 1-based).
pub open spec fn days_in_month(y: int, m: int) -> int {
    if m == 2 {
        if is_leap_year(y) {
            29
        } else {
            28
        }
    } else if m == 4 || m == 6 || m == 9 || m == 11 {
        30
    } else {
        31
    }
}

/// A real calendar date writable as four year digits.
pub open spec fn valid_date(y: int, m: int, d: int) -> bool {
    0 <= y <= 9999 && 1 <= m <= 12 && 1 <= d <= days_in_month(y, m)
}

/// A real time of day (no leap seconds).
pub open spec fn valid_time(h: int, mi: int, s: int) -> bool {
    0 <= h <= 23 && 0 <= mi <= 59 && 0 <= s <= 59
}

/// Year named by the first four bytes of an eight-digit date group.
pub open spec fn year_of(ds: Seq<u8>) -> int {
    digit_val(ds[0]) * 1000 + digit_val(ds[1]) * 100 + digit_val(ds[2]) * 10 + digit_val(ds[3])
}

/// Month named by bytes four and five of an eight-digit date group.
pub open spec fn month_of(ds: Seq<u8>) -> int {
    digit_val(ds[4]) * 10 + digit_val(ds[5])
}

/// Day named by the last two bytes of an eight-digit date group.
pub open spec fn day_of(ds: Seq<u8>) -> int {
    digit_val(ds[6]) * 10 + digit_val(ds[7])
}

/// Hour named by the first two bytes of a six-digit time group.
pub open spec fn hour_of(ts: Seq<u8>) -> int {
    digit_val(ts[0]) * 10 + digit_val(ts[1])
}

/// Minute named by bytes two and three of a six-digit time group.
pub open spec fn minute_of(ts: Seq<u8>) -> int {
    digit_val(ts[2]) * 10 + digit_val(ts[3])
}

/// Second named by the last two bytes of a six-digit time group.
pub open spec fn second_of(ts: Seq<u8>) -> int {
    digit_val(ts[4]) * 10 + digit_val(ts[5])
}

/// The date field text is exactly eight digits naming a real calendar date.
pub open spec fn date_text_valid(ds: Seq<u8>) -> bool {
    ds.len() == 8 && all_digits(ds) && valid_date(year_of(ds), month_of(ds), day_of(ds))
}

/// The time field text is exactly six digits naming a real time of day.
pub open spec fn time_text_valid(ts: Seq<u8>) -> bool {
    ts.len() == 6 && all_digits(ts) && valid_time(hour_of(ts), minute_of(ts), second_of(ts))
}

/// The canonical `YYYY-MM-DD HH:MM:SS` timestamp, as bytes, built from an
/// eight-digit date group and a six-digit time group
/// (`45` is `-`, `32` is the space, `58` is `:`).
pub open spec fn timestamp_of_texts(ds: Seq<u8>, ts: Seq<u8>) -> Seq<u8> {
    seq![
        ds[0],
        ds[1],
        ds[2],
        ds[3],
        45,
        ds[4],
        ds[5],
        45,
        ds[6],
        ds[7],
        32,
        ts[0],
        ts[1],
        58,
        ts[2],
        ts[3],
        58,
        ts[4],
        ts[5],
    ]
}

/// Reading a canonical timestamp back: `Some` of the six fields when the
/// bytes have the exact `YYYY-MM-DD HH:MM:SS` shape, `None` otherwise.
pub open spec fn timestamp_parse(t: Seq<u8>) -> Option<(int, int, int, int, int, int)> {
    if t.len() == 19 && is_digit(t[0]) && is_digit(t[1]) && is_digit(t[2]) && is_digit(t[3])
        && t[4] == 45 && is_digit(t[5]) && is_digit(t[6]) && t[7] == 45 && is_digit(t[8])
        && is_digit(t[9]) && t[10] == 32 && is_digit(t[11]) && is_digit(t[12]) && t[13] == 58
        && is_digit(t[14]) && is_digit(t[15]) && t[16] == 58 && is_digit(t[17]) && is_digit(
        t[18],
    ) {
        Some(
            (
                digit_val(t[0]) * 1000 + digit_val(t[1]) * 100 + digit_val(t[2]) * 10 + digit_val(
                    t[3],
                ),
                digit_val(t[5]) * 10 + digit_val(t[6]),
                digit_val(t[8]) * 10 + digit_val(t[9]),
                digit_val(t[11]) * 10 + digit_val(t[12]),
                digit_val(t[14]) * 10 + digit_val(t[15]),
                digit_val(t[17]) * 10 + digit_val(t[18]),
            ),
        )
    } else {
        None
    }
}

/// Number of days in the given month, executable form.
pub fn days_in_month_exec(y: u32, m: u32) -> (r: u32)
    ensures
        r == days_in_month(y as int, m as int),
{
    if m == 2 {
        if (y % 4 == 0 && y % 100 != 0) || y % 400 == 0 {
            29
        } else {
            28
        }
    } else if m == 4 || m == 6 || m == 9 || m == 11 {
        30
    } else {
        31
    }
}

/// Checks that the date field text names a real calendar date.
pub fn check_date_text(s: &[u8]) -> (r: bool)
    ensures
        r == date_text_valid(s@),
{
    if s.len() != 8 {
        return false;
    }
    if !all_bytes_digits(s) {
        return false;
    }
    let y: u32 = (s[0] - 48) as u32 * 1000 + (s[1] - 48) as u32 * 100 + (s[2] - 48) as u32 * 10 + (
    s[3] - 48) as u32;
    let m: u32 = (s[4] - 48) as u32 * 10 + (s[5] - 48) as u32;
    let d: u32 = (s[6] - 48) as u32 * 10 + (s[7] - 48) as u32;
    1 <= m && m <= 12 && 1 <= d && d <= days_in_month_exec(y, m)
}

/// Checks that the time field text names a real time of day.
pub fn check_time_text(s: &[u8]) -> (r: bool)
    ensures
        r == time_text_valid(s@),
{
    if s.len() != 6 {
        return false;
    }
    if !all_bytes_digits(s) {
        return false;
    }
    let h: u32 = (s[0] - 48) as u32 * 10 + (s[1] - 48) as u32;
    let mi: u32 = (s[2] - 48) as u32 * 10 + (s[3] - 48) as u32;
    let sec: u32 = (s[4] - 48) as u32 * 10 + (s[5] - 48) as u32;
    h <= 23 && mi <= 59 && sec <= 59
}

/// Builds the canonical timestamp bytes for a date and a time field,
/// or returns `None` when either field does not name a real calendar
/// date or time of day.
pub fn format_timestamp(date: &[u8], time: &[u8]) -> (r: Option<Vec<u8>>)
    ensures
        r.is_some() <==> (date_text_valid(date@) && time_text_valid(time@)),
        r matches Some(v) ==> v@ == timestamp_of_texts(date@, time@),
{
    if !check_date_text(date) {
        return None;
    }
    if !check_time_text(time) {
        return None;
    }
    let mut v: Vec<u8> = Vec::new();
    v.push(date[0]);
    v.push(date[1]);
    v.push(date[2]);
    v.push(date[3]);
    v.push(45);
    v.push(date[4]);
    v.push(date[5]);
    v.push(45);
    v.push(date[6]);
    v.push(date[7]);
    v.push(32);
    v.push(time[0]);
    v.push(time[1]);
    v.push(58);
    v.push(time[2]);
    v.push(time[3]);
    v.push(58);
    v.push(time[4]);
    v.push(time[5]);
    proof {
        assert(v@ =~= timestamp_of_texts(date@, time@));
    }
    Some(v)
}

/// The canonical timestamp built from a real calendar date and time of day
/// parses back, by an independent reading of its nineteen bytes, to exactly
/// the year, month, day, hour, minute and second named by the input fields:
/// formatting loses nothing and the two texts name the identical instant.
pub proof fn lemma_timestamp_round_trip(ds: Seq<u8>, ts: Seq<u8>)
    requires
        date_text_valid(ds),
        time_text_valid(ts),
    ensures
        timestamp_parse(timestamp_of_texts(ds, ts)) == Some(
            (year_of(ds), month_of(ds), day_of(ds), hour_of(ts), minute_of(ts), second_of(ts)),
        ),
{
    let t = timestamp_of_texts(ds, ts);
    assert(is_digit(ds[0]) && is_digit(ds[1]) && is_digit(ds[2]) && is_digit(ds[3]) && is_digit(
        ds[4],
    ) && is_digit(ds[5]) && is_digit(ds[6]) && is_digit(ds[7]));
    assert(is_digit(ts[0]) && is_digit(ts[1]) && is_digit(ts[2]) && is_digit(ts[3]) && is_digit(
        ts[4],
    ) && is_digit(ts[5]));
    assert(timestamp_parse(t) == Some(
        (year_of(ds), month_of(ds), day_of(ds), hour_of(ts), minute_of(ts), second_of(ts)),
    ));
}

} // verus!
