use std::time::{Duration, SystemTime, SystemTimeError, UNIX_EPOCH};

use vstd::prelude::*;
use vstd::string::*;

use crate::text::{
    append_str, chars_of, int_to_string, parse_i64, parse_i64_spec, push_char, push_padded,
    zero_padded,
};

verus! {

#[verifier::external_type_specification]
#[verifier::external_body]
pub struct ExSystemTime(SystemTime);

#[verifier::external_type_specification]
#[verifier::external_body]
pub struct ExSystemTimeError(SystemTimeError);

/// `SystemTime::now`: the clock's reading; nothing is known of it.
#[verifier::external_body]
fn clock_now() -> SystemTime {
    SystemTime::now()
}

/// `SystemTime::duration_since(UNIX_EPOCH)`: fails when the reading lies
/// before the epoch; nothing more is stated.
#[verifier::external_body]
fn since_epoch(t: &SystemTime) -> Result<Duration, SystemTimeError> {
    t.duration_since(UNIX_EPOCH)
}

/// `Duration::as_secs`: the whole seconds of the duration, which is opaque here.
#[verifier::external_body]
fn whole_seconds(d: &Duration) -> u64 {
    d.as_secs()
}

/// The error's text (`SystemTimeError`'s `Display`); not stated.
#[verifier::external_body]
fn system_time_error_text(e: &SystemTimeError) -> String {
    e.to_string()
}

/// The lead-in of the message for a clock reading before the epoch.
pub const BEFORE_EPOCH_LEAD: &'static str = "system time is before the Unix epoch: ";

/// The current Unix time in whole seconds. Whether it succeeds rests on the
/// clock; it fails only with a reading before the epoch or one too large for
/// an `i64`, each with its own message.
pub fn unix_now() -> (res: Result<i64, String>)
    ensures
        res matches Ok(t) ==> t >= 0,
        res matches Err(msg) ==> (msg@ == "current Unix timestamp is too large"@ || (
        BEFORE_EPOCH_LEAD@.len() <= msg@.len() && msg@.take(BEFORE_EPOCH_LEAD@.len() as int)
            == BEFORE_EPOCH_LEAD@)),
{
    let now = clock_now();
    match since_epoch(&now) {
        Ok(d) => seconds_to_timestamp(whole_seconds(&d)),
        Err(e) => {
            let mut msg = String::from_str(BEFORE_EPOCH_LEAD);
            let text = system_time_error_text(&e);
            append_str(&mut msg, text.as_str());
            proof {
                reveal_strlit("system time is before the Unix epoch: ");
            }
            assert(msg@.take(BEFORE_EPOCH_LEAD@.len() as int) =~= BEFORE_EPOCH_LEAD@);
            Err(msg)
        },
    }
}

/// A count of seconds since the epoch as an `i64` timestamp.
pub fn seconds_to_timestamp(secs: u64) -> (res: Result<i64, String>)
    ensures
        secs <= i64::MAX ==> res == Ok::<i64, String>(secs as i64),
        secs > i64::MAX ==> (res matches Err(msg) && msg@ == "current Unix timestamp is too large"@),
{
    if secs <= 9223372036854775807u64 {
        Ok(secs as i64)
    } else {
        Err(String::from_str("current Unix timestamp is too large"))
    }
}

/// Seconds per unit of a relative duration.
pub open spec fn unit_seconds(u: char) -> Option<int> {
    if u == 'm' {
        Some(60)
    } else if u == 'h' {
        Some(3600)
    } else if u == 'd' {
        Some(86400)
    } else if u == 'w' {
        Some(604800)
    } else {
        None
    }
}

pub open spec fn invalid_duration_message(input: Seq<char>) -> Seq<char> {
    "invalid duration '"@ + input + "'; use a positive value such as 30m, 12h, 7d, or 2w"@
}

pub open spec fn duration_too_large_message(input: Seq<char>) -> Seq<char> {
    "duration '"@ + input + "' is too large"@
}

/// What `parse_duration` gives for `s`: a positive count followed by one
/// unit letter (`m`, `h`, `d` or `w`), as seconds.
pub open spec fn duration_spec(s: Seq<char>) -> Result<int, Seq<char>> {
    if s.len() == 0 {
        Err(invalid_duration_message(s))
    } else {
        match parse_i64_spec(s.drop_last()) {
            None => Err(invalid_duration_message(s)),
            Some(v) => if v <= 0 {
                Err(invalid_duration_message(s))
            } else {
                match unit_seconds(s.last()) {
                    None => Err(invalid_duration_message(s)),
                    Some(m) => if v * m <= i64::MAX {
                        Ok(v * m)
                    } else {
                        Err(duration_too_large_message(s))
                    },
                }
            },
        }
    }
}

fn message_around(before: &str, input: &str, after: &str) -> (r: String)
    ensures
        r@ == before@ + input@ + after@,
{
    let mut r = String::from_str(before);
    append_str(&mut r, input);
    append_str(&mut r, after);
    r
}

/// Parses a relative duration such as `30m`, `12h`, `7d` or `2w` into seconds.
pub fn parse_duration(input: &str) -> (res: Result<i64, String>)
    ensures
        match duration_spec(input@) {
            Ok(v) => res == Ok::<i64, String>(v as i64),
            Err(m) => (res matches Err(msg) && msg@ == m),
        },
{
    let chars = chars_of(input);
    let n = chars.len();
    if n == 0 {
        return Err(
            message_around(
                "invalid duration '",
                input,
                "'; use a positive value such as 30m, 12h, 7d, or 2w",
            ),
        );
    }
    assert(chars@.subrange(0, n - 1) =~= input@.drop_last());
    let value = match parse_i64(&chars, 0, n - 1) {
        Some(v) => v,
        None => {
            return Err(
                message_around(
                    "invalid duration '",
                    input,
                    "'; use a positive value such as 30m, 12h, 7d, or 2w",
                ),
            );
        },
    };
    if value <= 0 {
        return Err(
            message_around(
                "invalid duration '",
                input,
                "'; use a positive value such as 30m, 12h, 7d, or 2w",
            ),
        );
    }
    let unit = chars[n - 1];
    let multiplier: i64 = if unit == 'm' {
        60
    } else if unit == 'h' {
        3600
    } else if unit == 'd' {
        86400
    } else if unit == 'w' {
        604800
    } else {
        return Err(
            message_around(
                "invalid duration '",
                input,
                "'; use a positive value such as 30m, 12h, 7d, or 2w",
            ),
        );
    };
    assert(unit_seconds(input@.last()) == Some(multiplier as int));
    if value > 9223372036854775807i64 / multiplier {
        assert(value * multiplier > i64::MAX) by (nonlinear_arith)
            requires
                value > 9223372036854775807i64 / multiplier,
                multiplier > 0,
        ;
        return Err(message_around("duration '", input, "' is too large"));
    }
    assert(value * multiplier <= i64::MAX) by (nonlinear_arith)
        requires
            value <= 9223372036854775807i64 / multiplier,
            multiplier > 0,
            value > 0,
    ;
    Ok(value * multiplier)
}

} // verus!

verus! {

/// The proleptic Gregorian date `(year, month, day)` of the day `z` days
/// after 1970-01-01 (days counted from 0000-03-01 in 400-year eras).
pub open spec fn civil_spec(z: int) -> (int, int, int) {
    let shifted = z + 719468;
    let era = shifted / 146097;
    let doe = shifted - era * 146097;
    let yoe = (doe - doe / 1460 + doe / 36524 - doe / 146096) / 365;
    let y = yoe + era * 400;
    let doy = doe - (365 * yoe + yoe / 4 - yoe / 100);
    let mp = (5 * doy + 2) / 153;
    let d = doy - (153 * mp + 2) / 5 + 1;
    let m = if mp < 10 {
        mp + 3
    } else {
        mp - 9
    };
    (if m <= 2 {
        y + 1
    } else {
        y
    }, m, d)
}

/// The UTC time of `t` seconds after the epoch, as `YYYY-MM-DDTHH:MM:SSZ`.
pub open spec fn timestamp_text(t: int) -> Seq<char> {
    let days = t / 86400;
    let secs = t % 86400;
    let (y, m, d) = civil_spec(days);
    zero_padded(y, 4) + seq!['-'] + zero_padded(m, 2) + seq!['-'] + zero_padded(d, 2) + seq!['T']
        + zero_padded(secs / 3600, 2) + seq![':'] + zero_padded((secs % 3600) / 60, 2) + seq![':']
        + zero_padded(secs % 60, 2) + seq!['Z']
}

/// Division rounding toward negative infinity.
fn floor_div(a: i64, b: i64) -> (q: i64)
    requires
        b > 0,
    ensures
        q == a / b,
{
    if a >= 0 {
        a / b
    } else {
        let t: i64 = -(a + 1);
        let q: i64 = -(t / b) - 1;
        assert(q == a / b) by (nonlinear_arith)
            requires
                a < 0,
                t == -(a + 1),
                b > 0,
                q == -(t / b) - 1,
        {
            let r = t % b;
            assert(t == b * (t / b) + r);
            assert(0 <= r < b);
            assert(a == b * q + (b - 1 - r));
            vstd::arithmetic::div_mod::lemma_fundamental_div_mod_converse(a as int, b as int, q as int, b - 1 - r);
        }
        q
    }
}

/// The remainder of floor division, in `0..b`.
fn floor_mod(a: i64, b: i64) -> (r: i64)
    requires
        b > 0,
    ensures
        r == a % b,
        0 <= r < b,
{
    if a >= 0 {
        a % b
    } else {
        let t: i64 = -(a + 1);
        let r: i64 = b - 1 - t % b;
        assert(r == a % b) by (nonlinear_arith)
            requires
                a < 0,
                t == -(a + 1),
                b > 0,
                r == b - 1 - t % b,
        {
            let q0 = t / b;
            let r0 = t % b;
            assert(t == b * q0 + r0);
            assert(0 <= r0 < b);
            assert(a == b * (-q0 - 1) + r);
            vstd::arithmetic::div_mod::lemma_fundamental_div_mod_converse(a as int, b as int, -q0 - 1, r as int);
        }
        r
    }
}

fn civil_from_days(days: i64) -> (r: (i64, i64, i64))
    requires
        -4611686018427387904 <= days <= 4611686018427387904,
    ensures
        (r.0 as int, r.1 as int, r.2 as int) == civil_spec(days as int),
        1 <= r.1 <= 12,
        1 <= r.2 <= days_in_month(r.0 as int, r.1 as int),
        days_from_civil(r.0 as int, r.1 as int, r.2 as int) == days,
{
    proof {
        lemma_civil_round_trip(days as int);
    }
    let shifted = days + 719468;
    let era = floor_div(shifted, 146097);
    let doe = shifted - era * 146097;
    assert(0 <= doe < 146097) by (nonlinear_arith)
        requires
            era == shifted / 146097,
            doe == shifted - era * 146097,
    ;
    let yoe = (doe - doe / 1460 + doe / 36524 - doe / 146096) / 365;
    assert(0 <= yoe <= 399) by (nonlinear_arith)
        requires
            0 <= doe < 146097,
            yoe == (doe - doe / 1460 + doe / 36524 - doe / 146096) / 365,
    ;
    let mut year = yoe + era * 400;
    let doy = doe - (365 * yoe + yoe / 4 - yoe / 100);
    assert(0 <= doy <= 365) by (nonlinear_arith)
        requires
            0 <= doe < 146097,
            yoe == (doe - doe / 1460 + doe / 36524 - doe / 146096) / 365,
            doy == doe - (365 * yoe + yoe / 4 - yoe / 100),
    ;
    let month_prime = (5 * doy + 2) / 153;
    let day = doy - (153 * month_prime + 2) / 5 + 1;
    assert(0 <= month_prime <= 11 && 1 <= day <= 31) by (nonlinear_arith)
        requires
            0 <= doy <= 365,
            month_prime == (5 * doy + 2) / 153,
            day == doy - (153 * month_prime + 2) / 5 + 1,
    ;
    let month = month_prime + if month_prime < 10 {
        3
    } else {
        -9
    };
    if month <= 2 {
        year += 1;
    }
    (year, month, day)
}

/// Formats a Unix timestamp as UTC in `YYYY-MM-DDTHH:MM:SSZ` form.
pub fn format_timestamp(timestamp: i64) -> (r: String)
    ensures
        r@ == timestamp_text(timestamp as int),
{
    let days = floor_div(timestamp, 86400);
    let seconds = floor_mod(timestamp, 86400);
    assert(-106751991167301 <= days <= 106751991167300) by (nonlinear_arith)
        requires
            days == (timestamp as int) / 86400,
            i64::MIN <= timestamp <= i64::MAX,
    ;
    let (year, month, day) = civil_from_days(days);
    let hour = seconds / 3600;
    let minute = (seconds % 3600) / 60;
    let second = seconds % 60;
    let mut r = String::new();
    push_padded(&mut r, year, 4);
    push_char(&mut r, '-');
    push_padded(&mut r, month, 2);
    push_char(&mut r, '-');
    push_padded(&mut r, day, 2);
    push_char(&mut r, 'T');
    push_padded(&mut r, hour, 2);
    push_char(&mut r, ':');
    push_padded(&mut r, minute, 2);
    push_char(&mut r, ':');
    push_padded(&mut r, second, 2);
    push_char(&mut r, 'Z');
    assert(r@ =~= timestamp_text(timestamp as int));
    r
}

} // verus!

verus! {

/// The day number (days after 1970-01-01) of the proleptic Gregorian date
/// `(y, m, d)`, counting 400-year eras from 0000-03-01.
pub open spec fn days_from_civil(y: int, m: int, d: int) -> int {
    let yy = if m <= 2 {
        y - 1
    } else {
        y
    };
    let era = yy / 400;
    let yoe = yy - era * 400;
    let mp = if m > 2 {
        m - 3
    } else {
        m + 9
    };
    let doy = (153 * mp + 2) / 5 + d - 1;
    let doe = yoe * 365 + yoe / 4 - yoe / 100 + doy;
    era * 146097 + doe - 719468
}

/// Whether `y` is a leap year of the Gregorian calendar.
pub open spec fn is_leap_year(y: int) -> bool {
    y % 4 == 0 && (y % 100 != 0 || y % 400 == 0)
}

/// The number of days of month `m` of year `y`.
pub open spec fn days_in_month(y: int, m: int) -> int {
    if m == 2 {
        if is_leap_year(y) {
            29
        } else {
            28
        }
    } else if m == 4 || m == 6 || m == 9 || m == 11 {
        30
    } else {
        31
    }
}

/// The first day, within its 400-year era, of the year that starts in March
/// of year `yoe` of the era.
spec fn year_start(yoe: int) -> int {
    365 * yoe + yoe / 4 - yoe / 100
}

/// The year of its era in which day `doe` of the era falls.
spec fn year_of_era(doe: int) -> int {
    (doe - doe / 1460 + doe / 36524 - doe / 146096) / 365
}

/// The day-of-era formula gives back the year at the first day of each year.
proof fn lemma_year_start_round_trip(n: int)
    requires
        0 <= n < 400,
    ensures
        year_of_era(year_start(n)) == n,
{
    let q4 = n / 4;
    let b = n % 4;
    let c = n / 100;
    let r = n % 100;
    let doe = year_start(n);
    assert(n == 4 * q4 + b && 0 <= b < 4 && n == 100 * c + r && 0 <= r < 100 && 0 <= c <= 3
        && r / 4 == q4 - 25 * c) by (nonlinear_arith)
        requires
            0 <= n < 400,
            q4 == n / 4,
            b == n % 4,
            c == n / 100,
            r == n % 100,
    ;
    vstd::arithmetic::div_mod::lemma_fundamental_div_mod_converse(doe, 1460, q4, q4 + 365 * b - c);
    vstd::arithmetic::div_mod::lemma_fundamental_div_mod_converse(doe, 36524, c, 365 * r + r / 4);
    vstd::arithmetic::div_mod::lemma_fundamental_div_mod_converse(doe, 146096, 0, doe);
    vstd::arithmetic::div_mod::lemma_fundamental_div_mod_converse(365 * n, 365, n, 0);
}

/// A year of the era whose February is short has only 365 days: its
/// 366th day already falls in the next year.
proof fn lemma_short_year_ends(yoe: int)
    requires
        0 <= yoe < 400,
        !is_leap_year(yoe + 1),
    ensures
        year_of_era(year_start(yoe) + 365) != yoe,
{
    let n = yoe + 1;
    assert(n < 400);
    assert(n / 4 - yoe / 4 == n / 100 - yoe / 100) by (nonlinear_arith)
        requires
            n == yoe + 1,
            0 <= yoe,
            n < 400,
            !(n % 4 == 0 && (n % 100 != 0 || n % 400 == 0)),
    ;
    assert(year_start(yoe) + 365 == year_start(n));
    lemma_year_start_round_trip(n);
}

/// A day of the months from March to January, counted from a March 1st,
/// stays within its month.
proof fn lemma_march_month_fits(doy: int, mp: int, d: int)
    requires
        0 <= doy <= 365,
        mp == (5 * doy + 2) / 153,
        d == doy - (153 * mp + 2) / 5 + 1,
        mp < 11,
    ensures
        d <= days_in_month(
            0,
            if mp < 10 {
                mp + 3
            } else {
                mp - 9
            },
        ),
{
    assert(0 <= mp && 5 * doy + 2 < 153 * mp + 153) by (nonlinear_arith)
        requires
            mp == (5 * doy + 2) / 153,
            doy >= 0,
    ;
    if mp == 0 {
    } else if mp == 1 {
    } else if mp == 2 {
    } else if mp == 3 {
    } else if mp == 4 {
    } else if mp == 5 {
    } else if mp == 6 {
    } else if mp == 7 {
    } else if mp == 8 {
    } else if mp == 9 {
    } else {
    }
}

/// Formatting names a real date, and the right one: the date that
/// `format_timestamp` writes for day `z` has a month in 1..=12 and a day
/// that exists in that month, and it is the date whose day number is `z`.
pub proof fn lemma_civil_round_trip(z: int)
    ensures
        1 <= civil_spec(z).1 <= 12,
        1 <= civil_spec(z).2 <= days_in_month(civil_spec(z).0, civil_spec(z).1),
        days_from_civil(civil_spec(z).0, civil_spec(z).1, civil_spec(z).2) == z,
{
    let shifted = z + 719468;
    let era = shifted / 146097;
    let doe = shifted - era * 146097;
    assert(0 <= doe < 146097) by (nonlinear_arith)
        requires
            era == shifted / 146097,
            doe == shifted - era * 146097,
    ;
    let yoe = (doe - doe / 1460 + doe / 36524 - doe / 146096) / 365;
    assert(0 <= yoe <= 399) by (nonlinear_arith)
        requires
            0 <= doe < 146097,
            yoe == (doe - doe / 1460 + doe / 36524 - doe / 146096) / 365,
    ;
    let doy = doe - (365 * yoe + yoe / 4 - yoe / 100);
    assert(0 <= doy <= 365) by (nonlinear_arith)
        requires
            0 <= doe < 146097,
            yoe == (doe - doe / 1460 + doe / 36524 - doe / 146096) / 365,
            doy == doe - (365 * yoe + yoe / 4 - yoe / 100),
    ;
    let mp = (5 * doy + 2) / 153;
    let d = doy - (153 * mp + 2) / 5 + 1;
    assert(0 <= mp <= 11 && 1 <= d <= 31) by (nonlinear_arith)
        requires
            0 <= doy <= 365,
            mp == (5 * doy + 2) / 153,
            d == doy - (153 * mp + 2) / 5 + 1,
    ;
    let y0 = yoe + era * 400;
    assert((y0) / 400 == era && y0 - era * 400 == yoe) by (nonlinear_arith)
        requires
            0 <= yoe <= 399,
            y0 == yoe + era * 400,
    ;
    if mp < 11 {
        lemma_march_month_fits(doy, mp, d);
    } else {
        assert(d == doy - 336);
        if doy == 365 {
            assert(year_of_era(year_start(yoe) + 365) == yoe);
            if !is_leap_year(yoe + 1) {
                lemma_short_year_ends(yoe);
            }
            let k = era * 100;
            assert(y0 + 1 == 4 * k + (yoe + 1));
            vstd::arithmetic::div_mod::lemma_mod_multiples_vanish(k, yoe + 1, 4);
            assert(y0 + 1 == 100 * era * 4 + (yoe + 1)) by (nonlinear_arith)
                requires
                    y0 == yoe + era * 400,
            ;
            assert(y0 + 1 == 100 * (4 * era) + (yoe + 1)) by (nonlinear_arith)
                requires
                    y0 == yoe + era * 400,
            ;
            vstd::arithmetic::div_mod::lemma_mod_multiples_vanish(4 * era, yoe + 1, 100);
            assert(y0 + 1 == 400 * era + (yoe + 1));
            vstd::arithmetic::div_mod::lemma_mod_multiples_vanish(era, yoe + 1, 400);
            assert(is_leap_year(y0 + 1));
        }
    }
}

/// `n` zero-padded to `w` digits is exactly `w` characters when it has at
/// most `w` digits.
proof fn lemma_padded_len(n: int, w: int)
    requires
        0 <= n,
        1 <= w <= 4,
        n < crate::text::pow10(w as nat),
    ensures
        zero_padded(n, w).len() == w,
{
    crate::text::lemma_decimal_len(n as nat);
    crate::text::lemma_decimal_len_bound(n as nat, w as nat);
    crate::text::lemma_zeros_len(w - crate::text::decimal(n as nat).len());
}

/// A timestamp from the epoch to the last second of year 9999 is written in
/// exactly 20 characters (`YYYY-MM-DDTHH:MM:SSZ`).
pub proof fn lemma_timestamp_text_len(t: int)
    requires
        0 <= t <= 253402300799,
    ensures
        timestamp_text(t).len() == 20,
{
    let days = t / 86400;
    let secs = t % 86400;
    assert(0 <= days <= 2932896 && 0 <= secs < 86400) by (nonlinear_arith)
        requires
            0 <= t <= 253402300799,
            days == t / 86400,
            secs == t % 86400,
    ;
    lemma_civil_round_trip(days);
    let shifted = days + 719468;
    let era = shifted / 146097;
    let doe = shifted - era * 146097;
    assert(4 <= era <= 24 && 0 <= doe < 146097) by (nonlinear_arith)
        requires
            719468 <= shifted <= 3652364,
            era == shifted / 146097,
            doe == shifted - era * 146097,
    ;
    let yoe = (doe - doe / 1460 + doe / 36524 - doe / 146096) / 365;
    assert(0 <= yoe <= 399) by (nonlinear_arith)
        requires
            0 <= doe < 146097,
            yoe == (doe - doe / 1460 + doe / 36524 - doe / 146096) / 365,
    ;
    let doy = doe - (365 * yoe + yoe / 4 - yoe / 100);
    assert(0 <= doy <= 365) by (nonlinear_arith)
        requires
            0 <= doe < 146097,
            yoe == (doe - doe / 1460 + doe / 36524 - doe / 146096) / 365,
            doy == doe - (365 * yoe + yoe / 4 - yoe / 100),
    ;
    let mp = (5 * doy + 2) / 153;
    if era == 24 && yoe == 399 {
        assert(doe <= 146036);
        assert(doy <= 305);
        assert(mp <= 9) by (nonlinear_arith)
            requires
                0 <= doy <= 305,
                mp == (5 * doy + 2) / 153,
        ;
    }
    let y = civil_spec(days).0;
    assert(1600 <= y <= 9999);
    let m = civil_spec(days).1;
    let d = civil_spec(days).2;
    reveal_with_fuel(crate::text::pow10, 5);
    lemma_padded_len(y, 4);
    lemma_padded_len(m, 2);
    lemma_padded_len(d, 2);
    assert(0 <= secs / 3600 < 24 && 0 <= (secs % 3600) / 60 < 60 && 0 <= secs % 60 < 60) by (nonlinear_arith)
        requires
            0 <= secs < 86400,
    ;
    lemma_padded_len(secs / 3600, 2);
    lemma_padded_len((secs % 3600) / 60, 2);
    lemma_padded_len(secs % 60, 2);
}

/// A duration that parses is a positive number of whole minutes.
pub proof fn lemma_duration_positive(s: Seq<char>)
    ensures
        duration_spec(s) matches Ok(v) ==> v > 0 && v % 60 == 0,
{
    if let Ok(v) = duration_spec(s) {
        let n = parse_i64_spec(s.drop_last()).unwrap();
        let m = unit_seconds(s.last()).unwrap();
        assert(v == n * m);
        assert(n * m > 0 && (n * m) % 60 == 0) by (nonlinear_arith)
            requires
                n > 0,
                m == 60 || m == 3600 || m == 86400 || m == 604800,
        ;
    }
}

} // verus!
