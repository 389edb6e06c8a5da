//! Calendar dates from Unix time, and the timestamp texts built from them.
use vstd::prelude::*;
use crate::text::{append_chars, decimal, decimal_exec, string_of, zero_pad, zero_pad_exec};

verus! {

/// Gregorian leap years.
pub open spec fn is_leap_year_spec(y: int) -> bool {
    (y % 4 == 0 && y % 100 != 0) || y % 400 == 0
}

/// Days in year `y`.
pub open spec fn year_len(y: int) -> int {
    if is_leap_year_spec(y) {
        366
    } else {
        365
    }
}

/// Days in month `m` (1 to 12) of year `y`.
pub open spec fn month_len(y: int, m: int) -> int {
    if m == 2 {
        if is_leap_year_spec(y) {
            29
        } else {
            28
        }
    } else if m == 4 || m == 6 || m == 9 || m == 11 {
        30
    } else {
        31
    }
}

/// The year that day `d` counted from the start of year `y` falls in, and
/// the day within that year.
pub open spec fn year_of(d: int, y: int) -> (int, int)
    decreases d,
{
    if d < year_len(y) || d < 0 {
        (y, d)
    } else {
        year_of(d - year_len(y), y + 1)
    }
}

/// The month that day `r` of year `y`, counted from the start of month `m`,
/// falls in, and the day within that month (both counted from zero for the
/// day).
pub open spec fn month_of(r: int, y: int, m: int) -> (int, int)
    decreases 13 - m,
{
    if m > 12 || r < month_len(y, m) {
        (m, r)
    } else {
        month_of(r - month_len(y, m), y, m + 1)
    }
}

/// Year, month and day of the month of day `days` after 1970-01-01.
pub open spec fn date_spec(days: int) -> (int, int, int) {
    let (y, r) = year_of(days, 1970);
    let (m, r2) = month_of(r, y, 1);
    (y, m, r2 + 1)
}

/// Days in the months of year `y` before month `m`.
pub open spec fn days_before_month(y: int, m: int) -> int
    decreases m,
{
    if m <= 1 {
        0
    } else {
        days_before_month(y, m - 1) + month_len(y, m - 1)
    }
}

/// Days from 1970-01-01 to the first day of year `y`.
pub open spec fn days_before_year(y: int) -> int
    decreases y - 1970,
{
    if y <= 1970 {
        0
    } else {
        days_before_year(y - 1) + year_len(y - 1)
    }
}

/// A number with at least two digits.
pub open spec fn two_digits(n: nat) -> Seq<char> {
    zero_pad(decimal(n), 2)
}

/// `YYYY-MM-DD` of the day `secs` falls on.
pub open spec fn date_text(secs: nat) -> Seq<char> {
    let (y, m, d) = date_spec((secs / 86400) as int);
    zero_pad(decimal(y as nat), 4) + seq!['-'] + two_digits(m as nat) + seq!['-'] + two_digits(
        d as nat,
    )
}

/// `HH:MM:SS` of the time of day of `secs`.
pub open spec fn time_text(secs: nat) -> Seq<char> {
    let rem = secs % 86400;
    two_digits(rem / 3600) + seq![':'] + two_digits((rem % 3600) / 60) + seq![':'] + two_digits(
        rem % 60,
    )
}

/// `YYYY-MM-DDTHH:MM:SSZ` for `secs` seconds after the Unix epoch.
pub open spec fn utc_timestamp_spec(secs: nat) -> Seq<char> {
    date_text(secs) + seq!['T'] + time_text(secs) + seq!['Z']
}

/// `YYYY-MM-DD HH:MM:SS.mmm` for `secs` seconds and `millis` milliseconds
/// after the Unix epoch.
pub open spec fn log_timestamp_spec(secs: nat, millis: nat) -> Seq<char> {
    date_text(secs) + seq![' '] + time_text(secs) + seq!['.'] + zero_pad(decimal(millis), 3)
}

proof fn lemma_month_of(r: int, y: int, m: int)
    requires
        1 <= m <= 12,
        0 <= r,
        r < year_len(y) - days_before_month(y, m),
    ensures
        1 <= month_of(r, y, m).0 <= 12,
        0 <= month_of(r, y, m).1 < month_len(y, month_of(r, y, m).0),
        days_before_month(y, month_of(r, y, m).0) + month_of(r, y, m).1 == days_before_month(y, m)
            + r,
    decreases 13 - m,
{
    if r >= month_len(y, m) {
        if m == 12 {
            assert(days_before_month(y, 12) == year_len(y) - 31) by {
                reveal_with_fuel(days_before_month, 12);
            }
        } else {
            lemma_month_of(r - month_len(y, m), y, m + 1);
        }
    }
}

proof fn lemma_year_of(d: int, y: int)
    requires
        0 <= d,
        y >= 1970,
    ensures
        year_of(d, y).0 >= y,
        0 <= year_of(d, y).1 < year_len(year_of(d, y).0),
        days_before_year(year_of(d, y).0) + year_of(d, y).1 == days_before_year(y) + d,
    decreases d,
{
    if d >= year_len(y) {
        lemma_year_of(d - year_len(y), y + 1);
    }
}

/// The date of day `days` after 1970-01-01 is a real date, and counting
/// the days before it gives `days` back.
pub proof fn law_date_is_calendar_position(days: int)
    requires
        days >= 0,
    ensures
        ({
            let (y, m, d) = date_spec(days);
            &&& y >= 1970
            &&& 1 <= m <= 12
            &&& 1 <= d <= month_len(y, m)
            &&& days_before_year(y) + days_before_month(y, m) + d - 1 == days
        }),
{
    lemma_year_of(days, 1970);
    let (y, r) = year_of(days, 1970);
    lemma_month_of(r, y, 1);
}

/// Whether `year` is a Gregorian leap year.
pub fn is_leap_year(year: i64) -> (r: bool)
    ensures
        r == is_leap_year_spec(year as int),
{
    let u: u64 = if year < 0 {
        ((-(year + 1)) as u64) + 1
    } else {
        year as u64
    };
    proof {
        lemma_divisible_magnitude(year as int, u as int, 4);
        lemma_divisible_magnitude(year as int, u as int, 100);
        lemma_divisible_magnitude(year as int, u as int, 400);
    }
    (u % 4 == 0 && u % 100 != 0) || u % 400 == 0
}

proof fn lemma_divisible_magnitude(y: int, u: int, k: int)
    requires
        k > 0,
        u == y || u == -y,
    ensures
        (u % k == 0) == (y % k == 0),
{
    if u == -y {
        vstd::arithmetic::div_mod::lemma_fundamental_div_mod(y, k);
        vstd::arithmetic::div_mod::lemma_fundamental_div_mod(u, k);
        if y % k == 0 {
            let q = y / k;
            assert(u == (-q) * k) by (nonlinear_arith)
                requires
                    y == k * q + 0,
                    u == -y,
            ;
            vstd::arithmetic::div_mod::lemma_mod_multiples_basic(-q, k);
        }
        if u % k == 0 {
            let q = u / k;
            assert(y == (-q) * k) by (nonlinear_arith)
                requires
                    u == k * q + 0,
                    u == -y,
            ;
            vstd::arithmetic::div_mod::lemma_mod_multiples_basic(-q, k);
        }
    }
}

fn month_len_exec(year: i64, m: i64) -> (r: i64)
    requires
        1 <= m <= 12,
        year >= 0,
    ensures
        r == month_len(year as int, m as int),
{
    if m == 2 {
        if is_leap_year(year) {
            29
        } else {
            28
        }
    } else if m == 4 || m == 6 || m == 9 || m == 11 {
        30
    } else {
        31
    }
}

/// Year, month and day of the month of day `days` after 1970-01-01. A day
/// before 1970 counts as a day of January 1970, its day number wrapped to
/// 32 bits.
pub fn days_to_date(days: i64) -> (r: (i64, u32, u32))
    ensures
        r.0 as int == date_spec(days as int).0,
        r.1 as int == date_spec(days as int).1,
        r.2 == date_spec(days as int).2 as u32,
        days >= 0 ==> r.2 as int == date_spec(days as int).2,
{
    if days < 0 {
        assert(date_spec(days as int) == (1970int, 1int, days + 1));
        return (1970, 1, (days + 1) as u32);
    }
    let mut year: i64 = 1970;
    let mut remaining: i64 = days;
    loop
        invariant
            0 <= remaining <= days,
            1970 <= year,
            (year - 1970) * 365 <= days - remaining,
            year_of(days as int, 1970) == year_of(remaining as int, year as int),
        ensures
            0 <= remaining < year_len(year as int),
            1970 <= year,
            year_of(days as int, 1970) == year_of(remaining as int, year as int),
        decreases remaining,
    {
        let len: i64 = if is_leap_year(year) {
            366
        } else {
            365
        };
        if remaining < len {
            break;
        }
        remaining = remaining - len;
        year = year + 1;
    }
    proof {
        lemma_year_of(days as int, 1970);
        assert(days_before_month(year as int, 1) == 0);
    }
    let ghost r0 = remaining as int;
    let mut month: i64 = 1;
    while month <= 12
        invariant
            1 <= month <= 13,
            0 <= remaining,
            1970 <= year,
            month_of(r0, year as int, 1) == month_of(remaining as int, year as int, month as int),
        ensures
            1 <= month <= 13,
            0 <= remaining,
            month_of(r0, year as int, 1) == month_of(remaining as int, year as int, month as int),
            month <= 12 ==> remaining < month_len(year as int, month as int),
        decreases 13 - month,
    {
        let len = month_len_exec(year, month);
        if remaining < len {
            break;
        }
        remaining = remaining - len;
        month = month + 1;
    }
    proof {
        lemma_month_of(r0, year as int, 1);
    }
    (year, month as u32, (remaining + 1) as u32)
}

fn two_digits_exec(n: u64) -> (r: Vec<char>)
    ensures
        r@ == two_digits(n as nat),
{
    let d = decimal_exec(n);
    zero_pad_exec(d.as_slice(), 2)
}

fn date_text_exec(secs: u64) -> (r: Vec<char>)
    ensures
        r@ == date_text(secs as nat),
{
    let days = secs / 86400;
    let (y, m, d) = days_to_date(days as i64);
    proof {
        law_date_is_calendar_position(days as int);
    }
    let yd = decimal_exec(y as u64);
    let mut out = zero_pad_exec(yd.as_slice(), 4);
    out.push('-');
    let ms = two_digits_exec(m as u64);
    append_chars(&mut out, ms.as_slice());
    out.push('-');
    let ds = two_digits_exec(d as u64);
    append_chars(&mut out, ds.as_slice());
    proof {
        assert(out@ =~= date_text(secs as nat));
    }
    out
}

fn time_text_exec(secs: u64) -> (r: Vec<char>)
    ensures
        r@ == time_text(secs as nat),
{
    let rem = secs % 86400;
    let mut out = two_digits_exec(rem / 3600);
    out.push(':');
    let mm = two_digits_exec((rem % 3600) / 60);
    append_chars(&mut out, mm.as_slice());
    out.push(':');
    let ss = two_digits_exec(rem % 60);
    append_chars(&mut out, ss.as_slice());
    proof {
        assert(out@ =~= time_text(secs as nat));
    }
    out
}

/// `YYYY-MM-DDTHH:MM:SSZ` for `secs` seconds after the Unix epoch.
pub fn utc_timestamp_from_secs(secs: u64) -> (r: String)
    ensures
        r@ == utc_timestamp_spec(secs as nat),
{
    let mut out = date_text_exec(secs);
    out.push('T');
    let t = time_text_exec(secs);
    append_chars(&mut out, t.as_slice());
    out.push('Z');
    proof {
        assert(out@ =~= utc_timestamp_spec(secs as nat));
    }
    string_of(out.as_slice())
}

/// `YYYY-MM-DD HH:MM:SS.mmm` for `secs` seconds and `millis` milliseconds
/// after the Unix epoch.
pub fn log_timestamp_from(secs: u64, millis: u32) -> (r: String)
    ensures
        r@ == log_timestamp_spec(secs as nat, millis as nat),
{
    let mut out = date_text_exec(secs);
    out.push(' ');
    let t = time_text_exec(secs);
    append_chars(&mut out, t.as_slice());
    out.push('.');
    let md = decimal_exec(millis as u64);
    let mp = zero_pad_exec(md.as_slice(), 3);
    append_chars(&mut out, mp.as_slice());
    proof {
        assert(out@ =~= log_timestamp_spec(secs as nat, millis as nat));
    }
    string_of(out.as_slice())
}

/// `SystemTime::now()` as whole seconds and the milliseconds past them since
/// the Unix epoch; a clock set before the epoch reads as zero.  Nothing is
/// said of the seconds: they come from the machine's clock.
#[verifier::external_body]
pub fn unix_time_now() -> (r: (u64, u32))
    ensures
        r.1 < 1000,
{
    let d = std::time::SystemTime::now().duration_since(std::time::UNIX_EPOCH).unwrap_or_default();
    (d.as_secs(), d.subsec_millis())
}

/// The current time as `YYYY-MM-DDTHH:MM:SSZ`.
pub fn current_utc_timestamp() -> (r: String)
    ensures
        exists|secs: u64| r@ == utc_timestamp_spec(secs as nat),
{
    let (secs, _millis) = unix_time_now();
    utc_timestamp_from_secs(secs)
}

} // verus!
