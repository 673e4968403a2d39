//! Civil date/time values at second precision, the spreadsheet serial-date
//! epoch (1899-12-30), and the fixed UTC-minus-7 to UTC shift used on the wire.

use vstd::prelude::*;

verus! {

/// A wall-clock instant: a proleptic Gregorian civil date with a time of day,
/// at second precision, no zone attached.
#[derive(Clone, Copy, PartialEq, Eq, Structural, Debug)]
pub struct Timestamp {
    pub year: u32,
    pub month: u32,
    pub day: u32,
    pub hour: u32,
    pub minute: u32,
    pub second: u32,
}

pub open spec fn is_leap_year(y: int) -> bool {
    (y % 4 == 0 && y % 100 != 0) || y % 400 == 0
}

pub open spec fn days_in_month(y: int, m: int) -> int {
    if m == 2 {
        if is_leap_year(y) { 29 } else { 28 }
    } else if m == 4 || m == 6 || m == 9 || m == 11 {
        30
    } else {
        31
    }
}

/// Days from the start of year `y` to the start of its month `m`.
pub open spec fn days_before_month(y: int, m: int) -> int {
    let leap: int = if is_leap_year(y) { 1 } else { 0 };
    if m <= 1 { 0 }
    else if m == 2 { 31 }
    else if m == 3 { 59 + leap }
    else if m == 4 { 90 + leap }
    else if m == 5 { 120 + leap }
    else if m == 6 { 151 + leap }
    else if m == 7 { 181 + leap }
    else if m == 8 { 212 + leap }
    else if m == 9 { 243 + leap }
    else if m == 10 { 273 + leap }
    else if m == 11 { 304 + leap }
    else { 334 + leap }
}

pub open spec fn days_in_year(y: int) -> int {
    if is_leap_year(y) { 366 } else { 365 }
}

/// Days from 1900-01-01 to the start of year `y` (negative before 1900).
pub open spec fn days_from_1900(y: int) -> int
    decreases (if y >= 1900 { y - 1900 } else { 1900 - y })
{
    if y == 1900 {
        0
    } else if y > 1900 {
        days_from_1900(y - 1) + days_in_year(y - 1)
    } else {
        days_from_1900(y + 1) - days_in_year(y)
    }
}

pub open spec fn valid_date(y: int, m: int, d: int) -> bool {
    0 <= y <= 9999 && 1 <= m <= 12 && 1 <= d <= days_in_month(y, m)
}

impl Timestamp {
    pub open spec fn wf(self) -> bool {
        valid_date(self.year as int, self.month as int, self.day as int)
            && self.hour < 24 && self.minute < 60 && self.second < 60
    }

    /// The spreadsheet serial day of this date: days since 1899-12-30.
    pub open spec fn serial_day(self) -> int {
        serial_of_date(self.year as int, self.month as int, self.day as int)
    }

    /// Seconds since the serial epoch's midnight; orders instants totally.
    pub open spec fn total_seconds(self) -> int {
        self.serial_day() * 86400 + self.hour * 3600 + self.minute * 60 + self.second
    }
}

/// The serial day of a civil date: 0 at 1899-12-30, 2 at 1900-01-01.
pub open spec fn serial_of_date(y: int, m: int, d: int) -> int {
    2 + days_from_1900(y) + days_before_month(y, m) + (d - 1)
}

pub fn is_leap_year_x(y: u32) -> (r: bool)
    ensures r == is_leap_year(y as int),
{
    (y % 4 == 0 && y % 100 != 0) || y % 400 == 0
}

pub fn days_in_month_x(y: u32, m: u32) -> (r: u32)
    ensures r == days_in_month(y as int, m as int),
{
    if m == 2 {
        if is_leap_year_x(y) { 29 } else { 28 }
    } else if m == 4 || m == 6 || m == 9 || m == 11 {
        30
    } else {
        31
    }
}

pub fn days_in_year_x(y: u32) -> (r: u32)
    ensures r == days_in_year(y as int),
{
    if is_leap_year_x(y) { 366 } else { 365 }
}

/// Walks years and months to the civil date of a serial day.
fn serial_civil(days: i64, secs: u32) -> (r: Option<Timestamp>)
    ensures
        match r {
            Some(t) => {
                &&& t.wf()
                &&& t.serial_day() == days
                &&& t.hour == secs / 3600
                &&& t.minute == (secs % 3600) / 60
                &&& t.second == secs % 60
                &&& 0 <= days && secs < 86400
            },
            None => days < 0 || days > serial_of_date(9999, 12, 31) || secs >= 86400,
        },
{
    if days < 0 || secs >= 86400 {
        return None;
    }
    let hour = secs / 3600;
    let minute = (secs % 3600) / 60;
    let second = secs % 60;
    proof {
        assert(days_from_1900(1900) == 0);
        assert(days_from_1900(1899) == -365);
    }
    if days == 0 {
        let t = Timestamp { year: 1899, month: 12, day: 30, hour, minute, second };
        proof {
            assert(valid_date(1899, 12, 30) && serial_of_date(1899, 12, 30) == 0);
            lemma_serial_upper_bound(0);
        }
        return Some(t);
    }
    if days == 1 {
        let t = Timestamp { year: 1899, month: 12, day: 31, hour, minute, second };
        proof {
            assert(valid_date(1899, 12, 31) && serial_of_date(1899, 12, 31) == 1);
            lemma_serial_upper_bound(1);
        }
        return Some(t);
    }
    let mut rem: u64 = (days - 2) as u64;
    let mut year: u32 = 1900;
    loop
        invariant
            1900 <= year <= 10000,
            2 + days_from_1900(year as int) + rem == days,
        ensures
            1900 <= year <= 9999,
            2 + days_from_1900(year as int) + rem == days,
            rem < days_in_year(year as int),
        decreases rem,
    {
        if year > 9999 {
            proof { lemma_serial_monotone_in_year(year as int); }
            return None;
        }
        let len = days_in_year_x(year);
        if rem < len as u64 {
            break;
        }
        rem = rem - len as u64;
        year = year + 1;
    }
    // rem is now the day of the year; walk the months.
    let mut month: u32 = 1;
    loop
        invariant
            1 <= month <= 12,
            1900 <= year <= 9999,
            days_before_month(year as int, month as int) + rem + 2 + days_from_1900(year as int) == days,
            rem + days_before_month(year as int, month as int) < days_in_year(year as int),
        ensures
            1 <= month <= 12,
            1900 <= year <= 9999,
            days_before_month(year as int, month as int) + rem + 2 + days_from_1900(year as int) == days,
            rem < days_in_month(year as int, month as int),
        decreases 12 - month,
    {
        let len = days_in_month_x(year, month);
        if rem < len as u64 {
            break;
        }
        rem = rem - len as u64;
        month = month + 1;
    }
    let t = Timestamp { year, month, day: (rem + 1) as u32, hour, minute, second };
    proof {
        assert(t.wf() && t.serial_day() == days);
        lemma_serial_upper_bound(days as int);
    }
    Some(t)
}

/// What a spreadsheet serial date denotes: the unique representable civil
/// timestamp with that serial day and time of day, where one exists.
pub open spec fn spec_serial_to_timestamp(days: int, secs: int) -> Option<Timestamp> {
    if 0 <= days <= serial_of_date(9999, 12, 31) && 0 <= secs < 86400 {
        Some(choose|t: Timestamp|
            t.wf() && t.serial_day() == days
                && t.hour == secs / 3600 && t.minute == (secs % 3600) / 60 && t.second == secs % 60)
    } else {
        None
    }
}

/// Converts a spreadsheet serial date (whole days since 1899-12-30 plus
/// seconds of the day) to a civil timestamp.  Returns `None` exactly when the
/// day count is negative, beyond 9999-12-31, or the seconds exceed a day.
pub fn serial_to_timestamp(days: i64, secs: u32) -> (r: Option<Timestamp>)
    ensures
        r == spec_serial_to_timestamp(days as int, secs as int),
        r matches Some(t) ==> t.wf() && t.serial_day() == days,
{
    let r = serial_civil(days, secs);
    proof {
        match r {
            Some(t) => {
                lemma_serial_upper_bound_of(t);
                let picked = choose|u: Timestamp|
                    u.wf() && u.serial_day() == days
                        && u.hour == secs / 3600 && u.minute == (secs % 3600) / 60
                        && u.second == secs % 60;
                assert(t.wf() && t.serial_day() == days
                    && t.hour == secs / 3600 && t.minute == (secs % 3600) / 60
                    && t.second == secs % 60);
                lemma_serial_day_injective(picked, t);
            },
            None => {},
        }
    }
    r
}

/// A representable date's serial day is at most 9999-12-31's.
proof fn lemma_serial_upper_bound_of(t: Timestamp)
    requires t.wf(),
    ensures t.serial_day() <= serial_of_date(9999, 12, 31),
{
    assert(valid_date(t.year as int, t.month as int, t.day as int)
        && serial_of_date(t.year as int, t.month as int, t.day as int) == t.serial_day());
    lemma_serial_upper_bound(t.serial_day());
}

/// Years starting later have strictly later starts, by at least a year each.
proof fn lemma_year_gap(y1: int, y2: int)
    requires y1 < y2,
    ensures days_from_1900(y1) + days_in_year(y1) <= days_from_1900(y2),
    decreases y2 - y1,
{
    if y1 + 1 < y2 {
        lemma_year_gap(y1 + 1, y2);
    }
    assert(days_from_1900(y1 + 1) == days_from_1900(y1) + days_in_year(y1));
}

/// Later months of one year start strictly later.
proof fn lemma_month_gap(y: int, m1: int, m2: int)
    requires 1 <= m1 < m2 <= 12,
    ensures days_before_month(y, m1) + days_in_month(y, m1) <= days_before_month(y, m2),
    decreases m2 - m1,
{
    if m1 + 1 < m2 {
        lemma_month_gap(y, m1 + 1, m2);
    }
}

/// The serial day determines the civil date of a representable timestamp.
pub proof fn lemma_serial_day_injective(a: Timestamp, b: Timestamp)
    requires a.wf(), b.wf(), a.serial_day() == b.serial_day(),
    ensures a.year == b.year, a.month == b.month, a.day == b.day,
{
    lemma_same_year(a, b);
    lemma_same_year(b, a);
    if a.month < b.month {
        lemma_month_gap(a.year as int, a.month as int, b.month as int);
    }
    if b.month < a.month {
        lemma_month_gap(a.year as int, b.month as int, a.month as int);
    }
}

/// Of two representable timestamps on one serial day, neither lies in an
/// earlier year than the other.
proof fn lemma_same_year(a: Timestamp, b: Timestamp)
    requires a.wf(), b.wf(), a.serial_day() == b.serial_day(),
    ensures a.year >= b.year,
{
    if a.year < b.year {
        lemma_year_gap(a.year as int, b.year as int);
        assert(days_before_month(a.year as int, a.month as int) + (a.day - 1)
            < days_in_year(a.year as int));
        assert(days_before_month(b.year as int, b.month as int) + (b.day - 1) >= 0);
        assert(false);
    }
}

/// A serial day at or before a representable date is at most the last one's.
proof fn lemma_serial_upper_bound(s: int)
    requires exists|y: int, m: int, d: int| valid_date(y, m, d) && serial_of_date(y, m, d) == s,
    ensures s <= serial_of_date(9999, 12, 31),
{
    let (y, m, d) = choose|y: int, m: int, d: int|
        valid_date(y, m, d) && serial_of_date(y, m, d) == s;
    assert(days_before_month(y, m) + (d - 1) < days_in_year(y));
    lemma_days_from_1900_bound(y);
}

/// Growth of `days_from_1900`: later years start at least a day per year later.
proof fn lemma_days_from_1900_bound(y: int)
    requires 0 <= y <= 9999,
    ensures days_from_1900(y) + days_in_year(y) <= days_from_1900(10000),
    decreases 10000 - y,
{
    if y < 9999 {
        lemma_days_from_1900_bound(y + 1);
    }
}

/// Any date in a year at or past 10000 has a serial day beyond 9999-12-31's.
proof fn lemma_serial_monotone_in_year(y: int)
    requires y >= 10000,
    ensures days_from_1900(y) >= days_from_1900(10000) >= serial_of_date(9999, 12, 31) - 1,
    decreases y - 10000,
{
    if y > 10000 {
        lemma_serial_monotone_in_year(y - 1);
    }
}

/// Shifts a civil instant forward by seven hours: the UTC equivalent of a
/// wall-clock reading captured in the fixed UTC-minus-7 civil time.  `None`
/// exactly when the result would pass the end of year 9999.
pub fn to_utc(t: &Timestamp) -> (r: Option<Timestamp>)
    requires t.wf(),
    ensures
        match r {
            Some(u) => u.wf() && u.total_seconds() == t.total_seconds() + 7 * 3600
                && !(t.year == 9999 && t.month == 12 && t.day == 31 && t.hour >= 17),
            None => t.year == 9999 && t.month == 12 && t.day == 31 && t.hour >= 17,
        },
{
    if t.hour + 7 <= 23 {
        return Some(Timestamp { hour: t.hour + 7, ..*t });
    }
    let hour = t.hour + 7 - 24;
    let last = days_in_month_x(t.year, t.month);
    if t.day < last {
        return Some(Timestamp { day: t.day + 1, hour, ..*t });
    }
    if t.month < 12 {
        let u = Timestamp { month: t.month + 1, day: 1, hour, ..*t };
        proof {
            assert(days_before_month(u.year as int, u.month as int)
                == days_before_month(t.year as int, t.month as int)
                    + days_in_month(t.year as int, t.month as int));
        }
        return Some(u);
    }
    if t.year < 9999 {
        let u = Timestamp { year: t.year + 1, month: 1, day: 1, hour, ..*t };
        proof {
            assert(days_from_1900(u.year as int)
                == days_from_1900(t.year as int) + days_in_year(t.year as int));
            assert(days_before_month(t.year as int, 12) + 31 == days_in_year(t.year as int));
        }
        return Some(u);
    }
    None
}


/// A representable timestamp is determined by its total seconds.
pub proof fn lemma_total_seconds_injective(a: Timestamp, b: Timestamp)
    requires a.wf(), b.wf(), a.total_seconds() == b.total_seconds(),
    ensures a == b,
{
    assert(a.hour * 3600 + a.minute * 60 + a.second < 86400);
    assert(b.hour * 3600 + b.minute * 60 + b.second < 86400);
    assert(a.serial_day() * 86400 + (a.hour * 3600 + a.minute * 60 + a.second)
        == b.serial_day() * 86400 + (b.hour * 3600 + b.minute * 60 + b.second));
    assert(a.serial_day() == b.serial_day()) by (nonlinear_arith)
        requires
            a.serial_day() * 86400 + (a.hour * 3600 + a.minute * 60 + a.second)
                == b.serial_day() * 86400 + (b.hour * 3600 + b.minute * 60 + b.second),
            0 <= a.hour * 3600 + a.minute * 60 + a.second < 86400,
            0 <= b.hour * 3600 + b.minute * 60 + b.second < 86400,
    ;
    lemma_serial_day_injective(a, b);
    assert(a.hour == b.hour && a.minute == b.minute && a.second == b.second);
}

/// The timestamp seven hours past `t`, where one is representable: the UTC
/// reading of a wall clock fixed at UTC minus 7.
pub open spec fn spec_to_utc(t: Timestamp) -> Option<Timestamp> {
    if t.year == 9999 && t.month == 12 && t.day == 31 && t.hour >= 17 {
        None
    } else {
        Some(choose|u: Timestamp| u.wf() && u.total_seconds() == t.total_seconds() + 7 * 3600)
    }
}

/// The UTC shift as a function: `to_utc` computes `spec_to_utc`.
pub fn to_utc_checked(t: &Timestamp) -> (r: Option<Timestamp>)
    requires t.wf(),
    ensures
        r == spec_to_utc(*t),
        r matches Some(u) ==> u.wf() && u.total_seconds() == t.total_seconds() + 7 * 3600,
{
    let r = to_utc(t);
    proof {
        match r {
            Some(u) => {
                let picked = choose|w: Timestamp|
                    w.wf() && w.total_seconds() == t.total_seconds() + 7 * 3600;
                assert(u.wf() && u.total_seconds() == t.total_seconds() + 7 * 3600);
                lemma_total_seconds_injective(picked, u);
            },
            None => {},
        }
    }
    r
}


/// The spreadsheet serial epoch pinned down: day 0 is 1899-12-30, and
/// 1900-01-01 is day 2.
pub proof fn lemma_serial_epoch()
    ensures
        serial_of_date(1899, 12, 30) == 0,
        serial_of_date(1899, 12, 31) == 1,
        serial_of_date(1900, 1, 1) == 2,
{
    assert(days_from_1900(1900) == 0);
    assert(days_from_1900(1899) == -365);
}

/// Whether a timestamp is representable: a real civil date with a real time
/// of day.
pub fn timestamp_wf(t: &Timestamp) -> (r: bool)
    ensures r == t.wf(),
{
    0 <= t.year && t.year <= 9999
        && 1 <= t.month && t.month <= 12
        && 1 <= t.day && t.day <= days_in_month_x(t.year, t.month)
        && t.hour < 24 && t.minute < 60 && t.second < 60
}

} // verus!
