use vstd::prelude::*;

use crate::numfmt::is_digit;

verus! {

/// Minute-precision civil datetimes: parsing the due-date format
/// "YYYY-MM-DDTHH:MM" to a UTC timestamp in seconds, and formatting a
/// timestamp back to the display form "YYYY-MM-DD HH:MM:SS UTC". The
/// calendar is the proleptic Gregorian one.

pub open spec fn is_leap(y: int) -> bool {
    y % 4 == 0 && (y % 100 != 0 || y % 400 == 0)
}

pub open spec fn days_in_month(y: int, m: int) -> int {
    if m == 2 {
        if is_leap(y) {
            29
        } else {
            28
        }
    } else if m == 4 || m == 6 || m == 9 || m == 11 {
        30
    } else {
        31
    }
}

/// Days since 1970-01-01 of a civil date, for years 0 through 9999.
pub open spec fn days_from_civil(y: int, m: int, d: int) -> int {
    let yy = if m <= 2 {
        y - 1
    } else {
        y
    };
    let era1 = (yy + 400) / 400;
    let yoe = yy + 400 - era1 * 400;
    let mp = if m > 2 {
        m - 3
    } else {
        m + 9
    };
    let doy = (153 * mp + 2) / 5 + d - 1;
    let doe = yoe * 365 + yoe / 4 - yoe / 100 + doy;
    (era1 - 1) * 146097 + doe - 719468
}

/// The UTC timestamp of a civil date and minute-precision time of day.
pub open spec fn civil_ts(y: int, m: int, d: int, h: int, mi: int) -> int {
    days_from_civil(y, m, d) * 86400 + h * 3600 + mi * 60
}

pub open spec fn digit_val(b: u8) -> int {
    b - 48
}

/// Whether a byte string is a well-formed due date "YYYY-MM-DDTHH:MM":
/// the exact shape, a real calendar date, and a real time of day.
pub open spec fn valid_due_date(s: Seq<u8>) -> bool {
    &&& s.len() == 16
    &&& is_digit(s[0]) && is_digit(s[1]) && is_digit(s[2]) && is_digit(s[3])
    &&& s[4] == 45u8
    &&& is_digit(s[5]) && is_digit(s[6])
    &&& s[7] == 45u8
    &&& is_digit(s[8]) && is_digit(s[9])
    &&& s[10] == 84u8
    &&& is_digit(s[11]) && is_digit(s[12])
    &&& s[13] == 58u8
    &&& is_digit(s[14]) && is_digit(s[15])
    &&& 1 <= due_month(s) <= 12
    &&& 1 <= due_day(s) <= days_in_month(due_year(s), due_month(s))
    &&& due_hour(s) <= 23
    &&& due_minute(s) <= 59
}

pub open spec fn due_year(s: Seq<u8>) -> int {
    digit_val(s[0]) * 1000 + digit_val(s[1]) * 100 + digit_val(s[2]) * 10 + digit_val(s[3])
}

pub open spec fn due_month(s: Seq<u8>) -> int {
    digit_val(s[5]) * 10 + digit_val(s[6])
}

pub open spec fn due_day(s: Seq<u8>) -> int {
    digit_val(s[8]) * 10 + digit_val(s[9])
}

pub open spec fn due_hour(s: Seq<u8>) -> int {
    digit_val(s[11]) * 10 + digit_val(s[12])
}

pub open spec fn due_minute(s: Seq<u8>) -> int {
    digit_val(s[14]) * 10 + digit_val(s[15])
}

/// The timestamp a well-formed due date denotes.
pub open spec fn due_date_ts(s: Seq<u8>) -> int {
    civil_ts(due_year(s), due_month(s), due_day(s), due_hour(s), due_minute(s))
}

/// Parses a due date string, yielding its UTC timestamp exactly when it is
/// well-formed.
pub fn parse_due_date(s: &String) -> (r: Option<i64>)
    ensures
        ({
            let b = vstd::utf8::encode_utf8(s@);
            match r {
                Some(ts) => valid_due_date(b) && ts as int == due_date_ts(b),
                None => !valid_due_date(b),
            }
        }),
{
    let b = s.as_str().as_bytes_vec();
    let ghost gb = b@;
    if b.len() != 16 {
        return None;
    }
    // shape
    if !(b[4] == 45 && b[7] == 45 && b[10] == 84 && b[13] == 58) {
        return None;
    }
    let mut k: usize = 0;
    while k < 16
        invariant
            k <= 16,
            gb == b@,
            gb == vstd::utf8::encode_utf8(s@),
            gb.len() == 16,
            forall|j: int|
                0 <= j < k && j != 4 && j != 7 && j != 10 && j != 13 ==> is_digit(#[trigger] gb[j]),
        decreases 16 - k,
    {
        if k != 4 && k != 7 && k != 10 && k != 13 {
            if b[k] < 48 || b[k] > 57 {
                proof {
                    assert(!is_digit(gb[k as int]));
                    assert(!valid_due_date(gb));
                }
                return None;
            }
        }
        k += 1;
    }
    let y: u64 = (b[0] - 48) as u64 * 1000 + (b[1] - 48) as u64 * 100 + (b[2] - 48) as u64 * 10 + (
    b[3] - 48) as u64;
    let m: u64 = (b[5] - 48) as u64 * 10 + (b[6] - 48) as u64;
    let d: u64 = (b[8] - 48) as u64 * 10 + (b[9] - 48) as u64;
    let h: u64 = (b[11] - 48) as u64 * 10 + (b[12] - 48) as u64;
    let mi: u64 = (b[14] - 48) as u64 * 10 + (b[15] - 48) as u64;
    proof {
        assert(due_year(gb) == y as int);
        assert(due_month(gb) == m as int);
        assert(due_day(gb) == d as int);
        assert(due_hour(gb) == h as int);
        assert(due_minute(gb) == mi as int);
    }
    if m < 1 || m > 12 {
        return None;
    }
    let dim: u64 = days_in_month_exec(y, m);
    if d < 1 || d > dim {
        return None;
    }
    if h > 23 {
        return None;
    }
    if mi > 59 {
        return None;
    }
    // the civil-to-days formula, on values known to be in range
    let yy: u64 = if m <= 2 {
        y + 399
    } else {
        y + 400
    };
    assert(yy as int == (if m <= 2 {
        y - 1
    } else {
        y as int
    }) + 400);
    let era1: u64 = yy / 400;
    let yoe: u64 = yy - era1 * 400;
    let mp: u64 = if m > 2 {
        m - 3
    } else {
        m + 9
    };
    let doy: u64 = (153 * mp + 2) / 5 + d - 1;
    let doe: u64 = yoe * 365 + yoe / 4 - yoe / 100 + doy;
    let days: i64 = era1 as i64 * 146097 - 146097 + doe as i64 - 719468;
    let ts: i64 = days * 86400 + h as i64 * 3600 + mi as i64 * 60;
    assert(days == days_from_civil(due_year(gb), due_month(gb), due_day(gb)));
    Some(ts)
}

/// The number of days of a month, matching `days_in_month`.
fn days_in_month_exec(y: u64, m: u64) -> (r: u64)
    requires
        1 <= m <= 12,
    ensures
        r as int == days_in_month(y as int, m as int),
{
    if m == 2 {
        if y % 4 == 0 && (y % 100 != 0 || y % 400 == 0) {
            29
        } else {
            28
        }
    } else if m == 4 || m == 6 || m == 9 || m == 11 {
        30
    } else {
        31
    }
}

/// The number of days of a year.
pub open spec fn days_in_year(y: int) -> int {
    if is_leap(y) {
        366
    } else {
        365
    }
}

/// Walks forward from a year, consuming whole years from a day count.
pub open spec fn year_from(y: int, rem: int) -> (int, int)
    decreases rem,
{
    if rem >= days_in_year(y) && rem >= 365 {
        year_from(y + 1, rem - days_in_year(y))
    } else {
        (y, rem)
    }
}

/// Walks forward from a month, consuming whole months from a day count.
pub open spec fn month_from(y: int, m: int, rem: int) -> (int, int)
    decreases 12 - m,
{
    if m < 12 && rem >= days_in_month(y, m) {
        month_from(y, m + 1, rem - days_in_month(y, m))
    } else {
        (m, rem)
    }
}

pub open spec fn two_digits(v: int) -> Seq<u8> {
    seq![(48 + v / 10) as u8, (48 + v % 10) as u8]
}

/// The display form of a timestamp at or after 1970: the civil date found
/// by walking years and months forward from 1970-01-01, then the time of
/// day, as "YYYY-MM-DD HH:MM:SS UTC".
pub open spec fn format_ts_bytes(ts: int) -> Seq<u8> {
    let yr = year_from(1970, ts / 86400);
    let mr = month_from(yr.0, 1, yr.1);
    let y = yr.0;
    let m = mr.0;
    let d = mr.1 + 1;
    let sod = ts % 86400;
    let h = sod / 3600;
    let mi = (sod % 3600) / 60;
    let sec = sod % 60;
    two_digits(y / 100) + two_digits(y % 100) + seq![45u8] + two_digits(m) + seq![45u8]
        + two_digits(d) + seq![32u8] + two_digits(h) + seq![58u8] + two_digits(mi) + seq![58u8]
        + two_digits(sec) + seq![32u8, 85u8, 84u8, 67u8]
}

/// Formats a timestamp for display. Timestamps outside 1970..=9999, which
/// cannot arise from this library's own clock values, format as the empty
/// string.
pub fn format_ts(ts: i64) -> (r: String)
    ensures
        0 <= ts < 253402300800 ==> vstd::utf8::encode_utf8(r@) == format_ts_bytes(ts as int),
        !(0 <= ts < 253402300800) ==> r@ == Seq::<char>::empty(),
{
    if !(0 <= ts && ts < 253402300800) {
        return new_empty_string();
    }
    let days: u64 = (ts / 86400) as u64;
    let sod: u64 = (ts % 86400) as u64;
    let mut y: u64 = 1970;
    let mut rem: u64 = days;
    while rem >= diy_exec(y) && rem >= 365
        invariant
            year_from(1970, days as int) == year_from(y as int, rem as int),
            rem <= days <= 2932896,
            1970 <= y,
            (y as int - 1970) * 365 <= days - rem,
        decreases rem,
    {
        rem = rem - diy_exec(y);
        y = y + 1;
    }
    assert(y <= 10006);
    let mut m: u64 = 1;
    while m < 12 && rem >= dim_exec(y, m)
        invariant
            month_from(y as int, 1, year_from(1970, days as int).1) == month_from(
                y as int,
                m as int,
                rem as int,
            ),
            year_from(1970, days as int).0 == y as int,
            year_from(1970, days as int).1 <= 365,
            1 <= m <= 12,
            rem as int <= 365 - 28 * (m as int - 1),
        decreases 12 - m,
    {
        rem = rem - dim_exec(y, m);
        m = m + 1;
    }
    let d: u64 = rem + 1;
    let h: u64 = sod / 3600;
    let mi: u64 = (sod % 3600) / 60;
    let sec: u64 = sod % 60;
    let mut out: Vec<u8> = Vec::new();
    push_two(&mut out, y / 100);
    push_two(&mut out, y % 100);
    out.push(45);
    push_two(&mut out, m);
    out.push(45);
    push_two(&mut out, d);
    out.push(32);
    push_two(&mut out, h);
    out.push(58);
    push_two(&mut out, mi);
    out.push(58);
    push_two(&mut out, sec);
    out.push(32);
    out.push(85);
    out.push(84);
    out.push(67);
    proof {
        assert(out@ =~= format_ts_bytes(ts as int));
    }
    crate::numfmt::ascii_to_string(out)
}

/// The number of days of a year, matching `days_in_year`.
fn diy_exec(y: u64) -> (r: u64)
    ensures
        r as int == days_in_year(y as int),
        r == 365 || r == 366,
{
    if y % 4 == 0 && (y % 100 != 0 || y % 400 == 0) {
        366
    } else {
        365
    }
}

/// The number of days of a month, matching `days_in_month`.
fn dim_exec(y: u64, m: u64) -> (r: u64)
    requires
        1 <= m <= 12,
    ensures
        r as int == days_in_month(y as int, m as int),
        28 <= r <= 31,
{
    days_in_month_exec(y, m)
}

/// Pushes two decimal digit bytes for a value below one hundred; larger
/// values spill into the bytes right above the digits.
fn push_two(out: &mut Vec<u8>, v: u64)
    requires
        v <= 207,
    ensures
        final(out)@ == old(out)@ + two_digits(v as int),
        forall|i: int|
            old(out)@.len() <= i < final(out)@.len() ==> #[trigger] final(out)@[i] < 128,
{
    out.push(48 + (v / 10) as u8);
    out.push(48 + (v % 10) as u8);
    proof {
        assert(final(out)@ =~= old(out)@ + two_digits(v as int));
    }
}

/// An empty string.
fn new_empty_string() -> (r: String)
    ensures
        r@ == Seq::<char>::empty(),
{
    String::new()
}

} // verus!
