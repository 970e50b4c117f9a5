//! PCF85063A real-time clock: BCD register coding, calendar arithmetic and
//! the central-European summer-time rule used to localise NTP time.
//!
//! The I²C transfers themselves are done by the caller; this module turns
//! register bytes into dates and dates into register bytes.

use vstd::prelude::*;

verus! {

/// I²C address of the clock.
pub const PCF85063A_ADDR: u8 = 0x51;
/// Control register 1.
pub const REG_CTRL1: u8 = 0x00;
/// Seconds register; the seven time registers follow it.
pub const REG_SECONDS: u8 = 0x04;

/// A calendar time as kept by the clock (year is 0–99 for 2000–2099).
#[derive(Debug, Clone, Copy, PartialEq, Eq)]
pub struct DateTime {
    pub seconds: u8,
    pub minutes: u8,
    pub hours: u8,
    pub day: u8,
    pub weekday: u8,
    pub month: u8,
    pub year: u8,
}

impl DateTime {
    /// Builds a date with weekday 0.
    pub fn new(year: u8, month: u8, day: u8, hours: u8, minutes: u8, seconds: u8) -> (r: Self)
        ensures
            r == (DateTime { seconds, minutes, hours, day, weekday: 0, month, year }),
    {
        DateTime { seconds, minutes, hours, day, weekday: 0, month, year }
    }
}

// ───────────────────────────────────────────────────────────────────────
// BCD

/// Value of a packed BCD byte: high nibble tens, low nibble ones.
pub open spec fn spec_bcd_to_dec(bcd: u8) -> int {
    (bcd / 16) * 10 + (bcd % 16)
}

/// Packed BCD of `dec`; the tens nibble is shifted within a byte, so tens
/// above 15 lose their high bits.
pub open spec fn spec_dec_to_bcd(dec: u8) -> int {
    ((dec / 10) * 16) % 256 + dec % 10
}

/// A byte whose two nibbles are both decimal digits.
pub open spec fn is_valid_bcd(b: u8) -> bool {
    b / 16 < 10 && b % 16 < 10
}

/// Decodes a packed BCD byte.
pub fn bcd_to_dec(bcd: u8) -> (r: u8)
    ensures
        r == spec_bcd_to_dec(bcd),
{
    assert((bcd >> 4) == bcd / 16 && (bcd & 0x0F) == bcd % 16) by (bit_vector);
    (bcd >> 4) * 10 + (bcd & 0x0F)
}

/// Encodes a byte as packed BCD.
pub fn dec_to_bcd(dec: u8) -> (r: u8)
    ensures
        r == spec_dec_to_bcd(dec),
{
    let t: u8 = dec / 10;
    let o: u8 = dec % 10;
    assert(((t << 4u8) | o) == ((t * 16) % 256) + o) by (bit_vector)
        requires
            o < 10,
    ;
    (t << 4) | o
}

/// Encoding then decoding gives back every value below 100.
pub proof fn lemma_bcd_roundtrip(dec: u8)
    requires
        dec < 100,
    ensures
        spec_dec_to_bcd(dec) < 256,
        is_valid_bcd(spec_dec_to_bcd(dec) as u8),
        spec_bcd_to_dec(spec_dec_to_bcd(dec) as u8) == dec,
{
}

/// Decoding then encoding gives back every valid BCD byte.
pub proof fn lemma_dec_roundtrip(bcd: u8)
    requires
        is_valid_bcd(bcd),
    ensures
        spec_bcd_to_dec(bcd) < 100,
        spec_dec_to_bcd(spec_bcd_to_dec(bcd) as u8) == bcd,
{
}

// ───────────────────────────────────────────────────────────────────────
// REGISTERS

/// Decodes the seven time registers read from `REG_SECONDS` onward.
pub fn decode_date_time(buf: &[u8; 7]) -> (r: DateTime)
    ensures
        r.seconds == spec_bcd_to_dec(buf[0] & 0x7F),
        r.minutes == spec_bcd_to_dec(buf[1] & 0x7F),
        r.hours == spec_bcd_to_dec(buf[2] & 0x3F),
        r.day == spec_bcd_to_dec(buf[3] & 0x3F),
        r.weekday == buf[4] & 0x07,
        r.month == spec_bcd_to_dec(buf[5] & 0x1F),
        r.year == spec_bcd_to_dec(buf[6]),
{
    DateTime {
        seconds: bcd_to_dec(buf[0] & 0x7F),
        minutes: bcd_to_dec(buf[1] & 0x7F),
        hours: bcd_to_dec(buf[2] & 0x3F),
        day: bcd_to_dec(buf[3] & 0x3F),
        weekday: buf[4] & 0x07,
        month: bcd_to_dec(buf[5] & 0x1F),
        year: bcd_to_dec(buf[6]),
    }
}

/// The register writes that set the clock to `dt`, in order: stop the
/// clock (STOP bit of control 1), the seven time registers, restart.
pub fn encode_date_time(ctrl1: u8, dt: &DateTime) -> (r: Vec<(u8, u8)>)
    ensures
        r@ == seq![
            (REG_CTRL1, ctrl1 | 0x20),
            (0x04u8, spec_dec_to_bcd(dt.seconds) as u8),
            (0x05u8, spec_dec_to_bcd(dt.minutes) as u8),
            (0x06u8, spec_dec_to_bcd(dt.hours) as u8),
            (0x07u8, spec_dec_to_bcd(dt.day) as u8),
            (0x08u8, dt.weekday),
            (0x09u8, spec_dec_to_bcd(dt.month) as u8),
            (0x0Au8, spec_dec_to_bcd(dt.year) as u8),
            (REG_CTRL1, ctrl1 & !0x20u8),
        ],
{
    let mut v: Vec<(u8, u8)> = Vec::new();
    v.push((REG_CTRL1, ctrl1 | 0x20));
    v.push((0x04, dec_to_bcd(dt.seconds)));
    v.push((0x05, dec_to_bcd(dt.minutes)));
    v.push((0x06, dec_to_bcd(dt.hours)));
    v.push((0x07, dec_to_bcd(dt.day)));
    v.push((0x08, dt.weekday));
    v.push((0x09, dec_to_bcd(dt.month)));
    v.push((0x0A, dec_to_bcd(dt.year)));
    v.push((REG_CTRL1, ctrl1 & !0x20u8));
    v
}

/// Start-up fix of control register 1: the STOP bit (0x20) and the
/// 12-hour bit (0x04) are cleared; `None` when nothing needs writing.
pub fn init_ctrl1(ctrl1: u8) -> (r: Option<u8>)
    ensures
        r == (if ctrl1 & !0x24u8 != ctrl1 { Some(ctrl1 & !0x24u8) } else { None::<u8> }),
{
    let new_ctrl1: u8 = ctrl1 & !(0x20u8 | 0x04u8);
    assert(ctrl1 & !(0x20u8 | 0x04u8) == ctrl1 & !0x24u8) by (bit_vector);
    if new_ctrl1 != ctrl1 {
        Some(new_ctrl1)
    } else {
        None
    }
}

// ───────────────────────────────────────────────────────────────────────
// CALENDAR

/// Gregorian leap year.
pub open spec fn spec_is_leap_year(year: int) -> bool {
    year % 4 == 0 && (year % 100 != 0 || year % 400 == 0)
}

pub open spec fn year_len(year: int) -> int {
    if spec_is_leap_year(year) { 366 } else { 365 }
}

/// Days from 1970-01-01 to the first day of `year` (for `year >= 1970`).
pub open spec fn days_before_year(year: int) -> int
    decreases year - 1970,
{
    if year <= 1970 { 0 } else { days_before_year(year - 1) + year_len(year - 1) }
}

/// Length of month `m` (1–12) of `year`.
pub open spec fn month_len(year: int, m: int) -> int {
    if m == 2 {
        if spec_is_leap_year(year) { 29 } else { 28 }
    } else if m == 4 || m == 6 || m == 9 || m == 11 {
        30
    } else {
        31
    }
}

/// Days from the first of January of `year` to the first day of month `m`.
pub open spec fn days_before_month(year: int, m: int) -> int
    decreases m,
{
    if m <= 1 { 0 } else { days_before_month(year, m - 1) + month_len(year, m - 1) }
}

/// `(year, month, day)` is the date that lies `days` days after 1970-01-01.
pub open spec fn is_date_of_day(days: int, year: int, month: int, day: int) -> bool {
    &&& year >= 1970
    &&& 1 <= month <= 12
    &&& 1 <= day <= month_len(year, month)
    &&& days_before_year(year) + days_before_month(year, month) + day - 1 == days
}

pub fn is_leap_year(year: i32) -> (r: bool)
    ensures
        r == spec_is_leap_year(year as int),
{
    year % 4 == 0 && (year % 100 != 0 || year % 400 == 0)
}

proof fn lemma_days_before_year_grows(y: int)
    requires
        y >= 1970,
    ensures
        days_before_year(y) >= 365 * (y - 1970),
    decreases y - 1970,
{
    if y > 1970 {
        lemma_days_before_year_grows(y - 1);
    }
}

proof fn lemma_year_is_twelve_months(y: int)
    ensures
        days_before_month(y, 13) == year_len(y),
{
    reveal_with_fuel(days_before_month, 13);
}

proof fn lemma_days_before_year_mono(a: int, b: int)
    requires
        1970 <= a <= b,
    ensures
        days_before_year(a) + (b - a) * 365 <= days_before_year(b),
    decreases b - a,
{
    if a < b {
        lemma_days_before_year_mono(a, b - 1);
    }
}

proof fn lemma_days_before_month_mono(y: int, a: int, b: int)
    requires
        1 <= a <= b,
    ensures
        days_before_month(y, a) + (b - a) * 28 <= days_before_month(y, b),
    decreases b - a,
{
    if a < b {
        lemma_days_before_month_mono(y, a, b - 1);
    }
}

/// Offset of a date within its year lies inside the year.
proof fn lemma_date_within_year(days: int, y: int, m: int, d: int)
    requires
        is_date_of_day(days, y, m, d),
    ensures
        days_before_year(y) <= days < days_before_year(y + 1),
        days_before_month(y, m) <= days - days_before_year(y) < days_before_month(y, m + 1),
{
    lemma_days_before_month_mono(y, 1, m);
    lemma_days_before_month_mono(y, m + 1, 13);
    lemma_year_is_twelve_months(y);
    assert(days_before_year(y + 1) == days_before_year(y) + year_len(y));
    assert(days_before_month(y, m + 1) == days_before_month(y, m) + month_len(y, m));
}

/// A day count has at most one calendar date.
pub proof fn lemma_date_of_day_unique(days: int, y1: int, m1: int, d1: int, y2: int, m2: int, d2: int)
    requires
        is_date_of_day(days, y1, m1, d1),
        is_date_of_day(days, y2, m2, d2),
    ensures
        y1 == y2 && m1 == m2 && d1 == d2,
{
    lemma_date_within_year(days, y1, m1, d1);
    lemma_date_within_year(days, y2, m2, d2);
    if y1 < y2 {
        lemma_days_before_year_mono(y1 + 1, y2);
    } else if y2 < y1 {
        lemma_days_before_year_mono(y2 + 1, y1);
    }
    assert(y1 == y2);
    if m1 < m2 {
        lemma_days_before_month_mono(y1, m1 + 1, m2);
    } else if m2 < m1 {
        lemma_days_before_month_mono(y1, m2 + 1, m1);
    }
}

proof fn lemma_date_unique(secs: i64, y1: u32, m1: u32, d1: u32, y2: u32, m2: u32, d2: u32)
    requires
        is_unix_date(secs, y1, m1, d1),
        is_unix_date(secs, y2, m2, d2),
    ensures
        (y1, m1, d1) == (y2, m2, d2),
{
    if unix_days(secs) >= 0 {
        lemma_date_of_day_unique(
            unix_days(secs) as int,
            y1 as int,
            m1 as int,
            d1 as int,
            y2 as int,
            m2 as int,
            d2 as int,
        );
    }
}

/// Converts days since 1970-01-01 into `(year, month, day)`; a negative
/// count yields `(1970, 1, days + 1)` as the loop never starts.
pub fn days_to_date(days: i32) -> (r: (u32, u32, u32))
    ensures
        days >= 0 ==> r.0 <= i32::MAX && is_date_of_day(days as int, r.0 as int, r.1 as int, r.2 as int),
        days < 0 ==> r == (1970u32, 1u32, (days + 1) as u32),
{
    let ghost total: int = days as int;
    let mut days: i32 = days;
    let mut year: i32 = 1970;
    if days >= 0 {
        proof { lemma_days_before_year_grows(1970); }
    }
    loop
        invariant_except_break
            total <= i32::MAX,
            total >= 0 ==> (year >= 1970 && days >= 0 && days_before_year(year as int) + days == total),
            total < 0 ==> (year == 1970 && days == total),
        ensures
            total >= 0 ==> (year >= 1970 && 0 <= days < year_len(year as int) && days_before_year(year as int) + days == total),
            total < 0 ==> (year == 1970 && days == total),
        decreases days,
    {
        let days_in_year: i32 = if is_leap_year(year) { 366 } else { 365 };
        if days < days_in_year {
            break;
        }
        proof {
            lemma_days_before_year_grows(year as int);
            assert(365 * (year - 1970) <= total <= i32::MAX);
        }
        days = days - days_in_year;
        year = year + 1;
    }
    let leap = is_leap_year(year);
    let feb: i32 = if leap { 29 } else { 28 };
    let month_days: [i32; 12] = [31, feb, 31, 30, 31, 30, 31, 31, 30, 31, 30, 31];
    assert(forall|k: int| 0 <= k < 12 ==> #[trigger] month_days@[k] == month_len(year as int, k + 1));
    let ghost in_year: int = days as int;
    proof { lemma_year_is_twelve_months(year as int); }
    let mut month: usize = 0;
    while month < 12 && days >= month_days[month]
        invariant
            month <= 12,
            total >= 0 ==> (days >= 0 && days_before_month(year as int, month + 1) + days == in_year),
            total >= 0 ==> in_year < year_len(year as int),
            total >= 0 ==> days_before_year(year as int) + in_year == total,
            total >= 0 ==> days_before_month(year as int, 13) == year_len(year as int),
            total < 0 ==> (month == 0 && days == total),
            forall|k: int| 0 <= k < 12 ==> #[trigger] month_days@[k] == month_len(year as int, k + 1),
        decreases 12 - month,
    {
        days = days - month_days[month];
        month = month + 1;
    }
    proof {
        if total >= 0 && month == 12 {
            assert(false);
        }
    }
    (year as u32, (month + 1) as u32, (days + 1) as u32)
}

/// Rust's integer division, which truncates towards zero.
pub open spec fn trunc_div(a: int, b: int) -> int {
    if a >= 0 { a / b } else { -((-a) / b) }
}

/// Remainder that goes with `trunc_div` (it has the sign of `a`).
pub open spec fn trunc_rem(a: int, b: int) -> int {
    a - b * trunc_div(a, b)
}

/// The date part of `unix_to_datetime`.
pub open spec fn unix_days(secs: i64) -> i32 {
    trunc_div(secs as int, 86400) as i32
}

/// `(year, month, day)` is the calendar date `unix_to_datetime` gives for
/// `secs`: the date of `unix_days(secs)` when that is not negative, and
/// `(1970, 1, days + 1)` (wrapped) otherwise.
pub open spec fn is_unix_date(secs: i64, year: u32, month: u32, day: u32) -> bool {
    &&& unix_days(secs) >= 0 ==> is_date_of_day(unix_days(secs) as int, year as int, month as int, day as int)
    &&& unix_days(secs) < 0 ==> (year, month, day) == (1970u32, 1u32, (unix_days(secs) + 1) as u32)
}

/// The calendar date of `secs` (unique by `lemma_date_of_day_unique`).
pub open spec fn unix_date(secs: i64) -> (u32, u32, u32) {
    choose|t: (u32, u32, u32)| is_unix_date(secs, t.0, t.1, t.2)
}

/// Hour of the day as `unix_to_datetime` computes it.
pub open spec fn unix_hour(secs: i64) -> u32 {
    trunc_div(trunc_rem(secs as int, 86400), 3600) as u32
}

/// Splits a UNIX time into `(year, month, day, hour, minute, second)`.
/// Before 1970 the time-of-day fields wrap as `u32`, as in the device code.
pub fn unix_to_datetime(secs: i64) -> (r: (u32, u32, u32, u32, u32, u32))
    ensures
        is_unix_date(secs, r.0, r.1, r.2),
        (r.0, r.1, r.2) == unix_date(secs),
        r.3 == unix_hour(secs),
        r.4 == trunc_div(trunc_rem(trunc_rem(secs as int, 86400), 3600), 60) as u32,
        r.5 == trunc_rem(trunc_rem(secs as int, 86400), 60) as u32,
{
    let days: i32 = (secs / 86400) as i32;
    let rem: i64 = secs % 86400;
    let hour: u32 = (rem / 3600) as u32;
    let minute: u32 = ((rem % 3600) / 60) as u32;
    let second: u32 = (rem % 60) as u32;
    let (year, month, day) = days_to_date(days);
    proof {
        assert(is_unix_date(secs, year, month, day));
        let t = unix_date(secs);
        lemma_date_unique(secs, t.0, t.1, t.2, year, month, day);
    }
    (year, month, day, hour, minute, second)
}

/// Day of the month of the last Sunday of March and October, tabulated
/// for 2025–2027; 31 for any other year or month.
pub open spec fn spec_last_sunday(year: i32, month: u32) -> u32 {
    if year == 2025 && month == 3 {
        30
    } else if year == 2025 && month == 10 {
        26
    } else if year == 2026 && month == 3 {
        29
    } else if year == 2026 && month == 10 {
        25
    } else if year == 2027 && month == 3 {
        28
    } else {
        31
    }
}

pub fn last_sunday_of_month(year: i32, month: u32) -> (r: u32)
    ensures
        r == spec_last_sunday(year, month),
{
    if year == 2025 && month == 3 {
        30
    } else if year == 2025 && month == 10 {
        26
    } else if year == 2026 && month == 3 {
        29
    } else if year == 2026 && month == 10 {
        25
    } else if year == 2027 && month == 3 {
        28
    } else if year == 2027 && month == 10 {
        31
    } else {
        31
    }
}

/// Summer time runs from the last Sunday of March, 02:00, to the last
/// Sunday of October, 03:00.
pub open spec fn spec_is_summer_time(year: i32, month: u32, day: u32, hour: u32) -> bool {
    let mar = spec_last_sunday(year, 3);
    let oct = spec_last_sunday(year, 10);
    ||| (month > 3 && month < 10)
    ||| (month == 3 && (day > mar || (day == mar && hour >= 2)))
    ||| (month == 10 && (day < oct || (day == oct && hour < 3)))
}

pub fn is_summer_time(year: i32, month: u32, day: u32, hour: u32) -> (r: bool)
    ensures
        r == spec_is_summer_time(year, month, day, hour),
{
    let mar_last_sun = last_sunday_of_month(year, 3);
    let oct_last_sun = last_sunday_of_month(year, 10);
    if month > 3 && month < 10 {
        return true;
    }
    if month == 3 {
        if day > mar_last_sun {
            return true;
        }
        if day == mar_last_sun && hour >= 2 {
            return true;
        }
    }
    if month == 10 {
        if day < oct_last_sun {
            return true;
        }
        if day == oct_last_sun && hour < 3 {
            return true;
        }
    }
    false
}

/// Offset of central-European time from UTC, in seconds, at `secs`.
pub open spec fn spec_timezone_offset(secs: i64) -> i32 {
    let d = unix_date(secs);
    if spec_is_summer_time(d.0 as i32, d.1, d.2, unix_hour(secs)) { 7200 } else { 3600 }
}

/// Offset of central-European time from UTC at `unix_secs`: 7200 s in
/// summer, 3600 s otherwise.
pub fn timezone_offset(unix_secs: i64) -> (r: i32)
    ensures
        r == spec_timezone_offset(unix_secs),
{
    let (year, month, day, hour, _, _) = unix_to_datetime(unix_secs);
    let is_summer = is_summer_time(year as i32, month, day, hour);
    if is_summer {
        7200
    } else {
        3600
    }
}

/// Seconds between the NTP epoch (1900) and the UNIX epoch (1970).
pub const NTP_UNIX_OFFSET: u32 = 2_208_988_800;

/// Local time carried by an NTP reply, as `ntp_sync` writes it to the
/// clock: the transmit timestamp (bytes 40–43, big-endian), moved to the
/// UNIX epoch with a wrapping subtraction, shifted by the local offset.
pub open spec fn spec_ntp_local_secs(response: Seq<u8>) -> i64 {
    let ntp = response[40] as int * 0x1000000 + response[41] as int * 0x10000 + response[42] as int * 0x100
        + response[43] as int;
    let unix = ((ntp - NTP_UNIX_OFFSET) % 0x1_0000_0000) as i64;
    (unix + spec_timezone_offset(unix)) as i64
}

/// Turns an NTP reply into the date written to the clock; `None` for a
/// reply shorter than the 48-byte NTP header.
pub fn ntp_local_date_time(response: &[u8]) -> (r: Option<DateTime>)
    ensures
        response.len() < 48 ==> r is None,
        response.len() >= 48 ==> ({
            let local = spec_ntp_local_secs(response@);
            let d = unix_date(local);
            let rem = trunc_rem(local as int, 86400);
            r == Some(
                DateTime {
                    seconds: (trunc_rem(rem, 60) as u32) as u8,
                    minutes: (trunc_div(trunc_rem(rem, 3600), 60) as u32) as u8,
                    hours: unix_hour(local) as u8,
                    day: d.2 as u8,
                    weekday: 0,
                    month: d.1 as u8,
                    year: (d.0 % 100) as u8,
                },
            )
        }),
{
    if response.len() < 48 {
        return None;
    }
    let ntp_secs: u32 = ((response[40] as u32) << 24u32) | ((response[41] as u32) << 16u32) | ((
    response[42] as u32) << 8u32) | (response[43] as u32);
    proof {
        let (b0, b1, b2, b3) = (response[40], response[41], response[42], response[43]);
        assert(((b0 as u32) << 24u32) | ((b1 as u32) << 16u32) | ((b2 as u32) << 8u32) | (b3 as u32)
            == b0 as u32 * 0x1000000 + b1 as u32 * 0x10000 + b2 as u32 * 0x100 + b3 as u32) by (bit_vector);
    }
    let unix_secs: i64 = ntp_secs.wrapping_sub(NTP_UNIX_OFFSET) as i64;
    let local_secs: i64 = unix_secs + timezone_offset(unix_secs) as i64;
    let (year, month, day, hour, minute, second) = unix_to_datetime(local_secs);
    Some(
        DateTime {
            seconds: second as u8,
            minutes: minute as u8,
            hours: hour as u8,
            day: day as u8,
            weekday: 0,
            month: month as u8,
            year: (year % 100) as u8,
        },
    )
}

} // verus!
