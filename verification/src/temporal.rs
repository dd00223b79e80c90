use chrono::Datelike;
use chrono::Timelike;
use vstd::prelude::*;

use crate::calendar::{lemma_days_from_civil, lemma_utc_fields};
use crate::text::{
    lemma_digits_lack, lemma_index_of, lemma_zero_padded_digits, parse_int_text, is_digit,
    append_chars, chars_to_string, zero_padded, zero_padded_chars,
    byte_prefix, byte_prefix_len, chars_of, digit_val, digits_value, fill_right, fill_right_chars, find_char,
    index_of, parse_int, parse_int_in, split_once,
};

verus! {

pub open spec fn i64_min() -> int {
    -0x8000_0000_0000_0000
}

pub open spec fn i64_max() -> int {
    0x7fff_ffff_ffff_ffff
}

/// `str::parse::<i64>()`.
pub open spec fn parse_i64_text(s: Seq<char>) -> Option<int> {
    parse_int_in(s, true, i64_min(), i64_max())
}

/// `Some(x)` where `x` fits in an `i64`, else `None`.
pub open spec fn in_i64(x: int) -> Option<int> {
    if i64_min() <= x <= i64_max() {
        Some(x)
    } else {
        None
    }
}

/// The minutes text and the seconds text of what follows the hours: the
/// seconds default to `"0"` when there is no second `:`.
pub open spec fn minutes_and_seconds(rest: Seq<char>) -> (Seq<char>, Seq<char>) {
    match split_once(rest, ':') {
        Some((m, sec)) => (m, sec),
        None => (rest, seq!['0']),
    }
}

/// The seconds text split at its first `.`: the fraction is padded with
/// `'0'` to six characters and cut after its sixth byte; a cut that would
/// split a character reads nothing.
pub open spec fn seconds_micros(sec: Seq<char>) -> Option<(int, int)> {
    match split_once(sec, '.') {
        Some((whole, frac)) => match parse_i64_text(whole) {
            Some(sp) => match byte_prefix_len(fill_right(frac, 6), 6) {
                Some(n) => match parse_i64_text(fill_right(frac, 6).subrange(0, n)) {
                    Some(us) => Some((sp, us)),
                    None => None,
                },
                None => None,
            },
            None => None,
        },
        None => match parse_i64_text(sec) {
            Some(sp) => Some((sp, 0)),
            None => None,
        },
    }
}

/// Microseconds since midnight written by an `H:i:s.u` text: hours, minutes
/// and seconds as `i64` integers, an optional fraction of which the first six
/// digits count; a sum outside the `i64` range reads nothing.
pub open spec fn time_micros(s: Seq<char>) -> Option<int> {
    match split_once(s, ':') {
        Some((hs, rest)) => match parse_i64_text(hs) {
            Some(h) => match parse_i64_text(minutes_and_seconds(rest).0) {
                Some(m) => match seconds_micros(minutes_and_seconds(rest).1) {
                    Some((sp, us)) => in_i64(h * 3_600_000_000 + m * 60_000_000 + sp * 1_000_000 + us),
                    None => None,
                },
                None => None,
            },
            None => None,
        },
        None => None,
    }
}

pub open spec fn opt_i64(r: Option<i64>) -> Option<int> {
    match r {
        Some(v) => Some(v as int),
        None => None,
    }
}

/// `parse_int` over the `i64` range.
fn parse_i64_chars(cs: &Vec<char>, lo: usize, hi: usize) -> (r: Option<i64>)
    requires
        lo <= hi <= cs.len(),
    ensures
        opt_i64(r) == parse_i64_text(cs@.subrange(lo as int, hi as int)),
{
    match parse_int(cs, lo, hi, true, -0x8000_0000_0000_0000i128, 0x7fff_ffff_ffff_ffffi128) {
        Some(v) => Some(v as i64),
        None => None,
    }
}

/// Seconds and microseconds of `cs[lo..hi]` (the seconds text).
fn parse_seconds(cs: &Vec<char>, lo: usize, hi: usize) -> (r: Option<(i64, i64)>)
    requires
        lo <= hi <= cs.len(),
    ensures
        r matches Some((sp, us)) ==> seconds_micros(cs@.subrange(lo as int, hi as int)) == Some(
            (sp as int, us as int),
        ),
        r is None ==> seconds_micros(cs@.subrange(lo as int, hi as int)) is None,
{
    let ghost sec = cs@.subrange(lo as int, hi as int);
    match find_char(cs, lo, hi, '.') {
        Some(d) => {
            assert(sec.subrange(0, d - lo) =~= cs@.subrange(lo as int, d as int));
            assert(sec.subrange(d - lo + 1, sec.len() as int) =~= cs@.subrange(d + 1, hi as int));
            let sp = match parse_i64_chars(cs, lo, d) {
                Some(v) => v,
                None => return None,
            };
            let padded = fill_right_chars(cs, d + 1, hi, 6);
            assert(padded@.subrange(0, padded@.len() as int) =~= padded@);
            let n = match byte_prefix(&padded, 0, 6) {
                Some(n) => n,
                None => return None,
            };
            let us = match parse_i64_chars(&padded, 0, n) {
                Some(v) => v,
                None => return None,
            };
            Some((sp, us))
        },
        None => {
            let sp = match parse_i64_chars(cs, lo, hi) {
                Some(v) => v,
                None => return None,
            };
            Some((sp, 0))
        },
    }
}

/// Microseconds since midnight of an `H:i:s.u` text (`H:i` alone counts as
/// zero seconds); `None` for any other text, and for a time outside the
/// `i64` range of microseconds.
pub fn parse_time_to_micros(s: &str) -> (r: Option<i64>)
    ensures
        opt_i64(r) == time_micros(s@),
{
    let cs = chars_of(s);
    let n = cs.len();
    assert(cs@.subrange(0, n as int) =~= s@);
    let i1 = match find_char(&cs, 0, n, ':') {
        Some(k) => k,
        None => return None,
    };
    let ghost rest = s@.subrange(i1 + 1, n as int);
    assert(rest =~= cs@.subrange(i1 + 1, n as int));
    let h = match parse_i64_chars(&cs, 0, i1) {
        Some(v) => v,
        None => return None,
    };
    let (m, sp, us) = match find_char(&cs, i1 + 1, n, ':') {
        Some(i2) => {
            assert(rest.subrange(0, i2 - i1 - 1) =~= cs@.subrange(i1 + 1, i2 as int));
            assert(rest.subrange(i2 - i1, rest.len() as int) =~= cs@.subrange(i2 + 1, n as int));
            let m = match parse_i64_chars(&cs, i1 + 1, i2) {
                Some(v) => v,
                None => return None,
            };
            match parse_seconds(&cs, i2 + 1, n) {
                Some((sp, us)) => (m, sp, us),
                None => return None,
            }
        },
        None => {
            let m = match parse_i64_chars(&cs, i1 + 1, n) {
                Some(v) => v,
                None => return None,
            };
            proof {
                let z = seq!['0'];
                assert(index_of(z, '.') is None) by {
                    assert(index_of(z.drop_first(), '.') is None);
                }
                assert(z.drop_first().len() == 0);
                assert(digits_value(z) == digits_value(z.drop_last()) * 10 + digit_val('0'));
                assert(parse_i64_text(z) == Some(0int));
            }
            (m, 0i64, 0i64)
        },
    };
    let total: i128 = (h as i128) * 3_600_000_000 + (m as i128) * 60_000_000 + (sp as i128) * 1_000_000 + (us as i128);
    if total < -0x8000_0000_0000_0000i128 || total > 0x7fff_ffff_ffff_ffffi128 {
        None
    } else {
        Some(total as i64)
    }
}

/// Division rounding toward zero (Rust's `/` on signed integers), `b > 0`.
pub open spec fn tdiv(a: int, b: int) -> int {
    if a >= 0 {
        a / b
    } else {
        -((-a) / b)
    }
}

/// Remainder of `tdiv` (Rust's `%` on signed integers), `b > 0`.
pub open spec fn tmod(a: int, b: int) -> int {
    a - b * tdiv(a, b)
}

/// `format!("{h:02}:{m:02}:{s:02}.{frac:06}")` of a microsecond count, with
/// hours, minutes, seconds and microseconds split by truncating division.
pub open spec fn time_text(micros: int) -> Seq<char> {
    let secs = tdiv(micros, 1_000_000);
    let frac = tmod(micros, 1_000_000);
    let h = tdiv(secs, 3600);
    let m = tdiv(tmod(secs, 3600), 60);
    let sec = tmod(secs, 60);
    zero_padded(h, 2) + seq![':'] + zero_padded(m, 2) + seq![':'] + zero_padded(sec, 2) + seq!['.']
        + zero_padded(frac, 6)
}

fn trunc_div(a: i128, b: i128) -> (q: i128)
    requires
        b > 0,
        -0x1_0000_0000_0000_0000_0000 < a < 0x1_0000_0000_0000_0000_0000,
    ensures
        q as int == tdiv(a as int, b as int),
        -0x1_0000_0000_0000_0000_0000 < q < 0x1_0000_0000_0000_0000_0000,
        -0x1_0000_0000_0000_0000_0000 < a - b * q < 0x1_0000_0000_0000_0000_0000,
        (a - b * q) as int == tmod(a as int, b as int),
{
    let q = if a >= 0 {
        a / b
    } else {
        -((-a) / b)
    };
    assert(-0x1_0000_0000_0000_0000_0000 < q < 0x1_0000_0000_0000_0000_0000) by (nonlinear_arith)
        requires
            b > 0,
            -0x1_0000_0000_0000_0000_0000 < a < 0x1_0000_0000_0000_0000_0000,
            q == tdiv(a as int, b as int),
    ;
    assert(-0x1_0000_0000_0000_0000_0000 < a - b * q < 0x1_0000_0000_0000_0000_0000) by (nonlinear_arith)
        requires
            b > 0,
            -0x1_0000_0000_0000_0000_0000 < a < 0x1_0000_0000_0000_0000_0000,
            q == tdiv(a as int, b as int),
    ;
    q
}

/// The `H:i:s.u` text of a microsecond count.
pub fn format_time_micros(micros: i64) -> (s: String)
    ensures
        s@ == time_text(micros as int),
{
    let a = micros as i128;
    let secs = trunc_div(a, 1_000_000);
    let frac = a - 1_000_000 * secs;
    let h = trunc_div(secs, 3600);
    let r = secs - 3600 * h;
    let m = trunc_div(r, 60);
    let sec = trunc_div(secs, 60);
    let sec = secs - 60 * sec;
    let mut v = zero_padded_chars(h, 2);
    v.push(':');
    let mv = zero_padded_chars(m, 2);
    append_chars(&mut v, &mv);
    v.push(':');
    let sv = zero_padded_chars(sec, 2);
    append_chars(&mut v, &sv);
    v.push('.');
    let fv = zero_padded_chars(frac, 6);
    append_chars(&mut v, &fv);
    assert(v@ =~= time_text(micros as int));
    chars_to_string(&v)
}


/// A leap year of the proleptic Gregorian calendar.
pub open spec fn is_leap_year(y: int) -> bool {
    y % 4 == 0 && (y % 100 != 0 || y % 400 == 0)
}

pub open spec fn days_in_month(y: int, m: int) -> int {
    if m == 2 {
        if is_leap_year(y) {
            29
        } else {
            28
        }
    } else if m == 4 || m == 6 || m == 9 || m == 11 {
        30
    } else {
        31
    }
}

/// A calendar date that chrono's `NaiveDate` can hold (years -262143 to
/// 262142).
pub open spec fn valid_ymd(y: int, m: int, d: int) -> bool {
    -262143 <= y <= 262142 && 1 <= m <= 12 && 1 <= d <= days_in_month(y, m)
}

/// Days from 1970-01-01 to the given proleptic Gregorian date.
pub open spec fn days_from_civil(y: int, m: int, d: int) -> int {
    let yy = if m <= 2 { y - 1 } else { y };
    let era = yy / 400;
    let yoe = yy - era * 400;
    let mp = (m + 9) % 12;
    let doy = (153 * mp + 2) / 5 + d - 1;
    let doe = yoe * 365 + yoe / 4 - yoe / 100 + doy;
    era * 146097 + doe - 719468
}

/// Day number (from 1970-01-01) of the last date chrono can hold, 262142-12-31.
pub open spec fn max_epoch_day() -> int {
    95026236
}

/// Day number of the first date chrono can hold, -262143-01-01.
pub open spec fn min_epoch_day() -> int {
    -96465292
}

/// The day number of a date given as year, month and day.
///
/// Calls chrono's `NaiveDate::from_ymd_opt` and, on success,
/// `NaiveDate::to_epoch_days`. The contract claims what chrono documents:
/// a date is made exactly for an existing proleptic Gregorian date in
/// chrono's year range, and its day number counts from 1970-01-01.
#[verifier::external_body]
fn chrono_epoch_days(y: i32, m: u32, d: u32) -> (r: Option<i32>)
    ensures
        r is Some <==> valid_ymd(y as int, m as int, d as int),
        r matches Some(n) ==> n as int == days_from_civil(y as int, m as int, d as int),
{
    chrono::NaiveDate::from_ymd_opt(y, m, d).map(|date| date.to_epoch_days())
}

/// The proleptic Gregorian date `n` days after 1970-01-01, as year, month
/// and day (the usual era-based inverse of `days_from_civil`).
pub open spec fn civil_from_days(n: int) -> (int, int, int) {
    let z = n + 719468;
    let era = z / 146097;
    let doe = z - era * 146097;
    let yoe = (doe - doe / 1460 + doe / 36524 - doe / 146096) / 365;
    let doy = doe - (365 * yoe + yoe / 4 - yoe / 100);
    let mp = (5 * doy + 2) / 153;
    let d = doy - (153 * mp + 2) / 5 + 1;
    let m = if mp < 10 { mp + 3 } else { mp - 9 };
    (yoe + era * 400 + if m <= 2 { 1int } else { 0int }, m, d)
}

/// The date (year, month, day) of a day number.
///
/// Calls chrono's `NaiveDate::from_epoch_days` and reads the year, month
/// and day of the date it makes. The contract claims what chrono documents:
/// a date is made exactly when the day number lies in chrono's range, and it
/// is the date with that day number.
#[verifier::external_body]
fn chrono_date_of_epoch_days(days: i32) -> (r: Option<(i32, u32, u32)>)
    ensures
        r is Some <==> min_epoch_day() <= days <= max_epoch_day(),
        r matches Some((y, m, d)) ==> valid_ymd(y as int, m as int, d as int)
            && days_from_civil(y as int, m as int, d as int) == days,
{
    chrono::NaiveDate::from_epoch_days(days).map(|date| (date.year(), date.month(), date.day()))
}

/// `str::parse::<i32>()`.
pub open spec fn parse_i32_text(s: Seq<char>) -> Option<int> {
    parse_int_in(s, true, -0x8000_0000, 0x7fff_ffff)
}

/// `str::parse::<u32>()`.
pub open spec fn parse_u32_text(s: Seq<char>) -> Option<int> {
    parse_int_in(s, false, 0, 0xffff_ffff)
}

/// Year, month and day of a `Y-m-d` text: the text is split at its first two
/// `-` (the day part keeps anything after), the year read as an `i32`, the
/// month and day as `u32`.
pub open spec fn date_fields(s: Seq<char>) -> Option<(int, int, int)> {
    match split_once(s, '-') {
        Some((ys, rest)) => match split_once(rest, '-') {
            Some((ms, ds)) => match (parse_i32_text(ys), parse_u32_text(ms), parse_u32_text(ds)) {
                (Some(y), Some(m), Some(d)) => Some((y, m, d)),
                _ => None,
            },
            None => None,
        },
        None => None,
    }
}

/// Days since 1970-01-01 of a `Y-m-d` text naming a date chrono can hold.
pub open spec fn date_days(s: Seq<char>) -> Option<int> {
    match date_fields(s) {
        Some((y, m, d)) => if valid_ymd(y, m, d) {
            Some(days_from_civil(y, m, d))
        } else {
            None
        },
        None => None,
    }
}

pub open spec fn opt_i32(r: Option<i32>) -> Option<int> {
    match r {
        Some(v) => Some(v as int),
        None => None,
    }
}

/// Days since 1970-01-01 of a `Y-m-d` text.
pub fn parse_date_to_days(s: &str) -> (r: Option<i32>)
    ensures
        opt_i32(r) == date_days(s@),
{
    let cs = chars_of(s);
    let n = cs.len();
    assert(cs@.subrange(0, n as int) =~= s@);
    let i1 = match find_char(&cs, 0, n, '-') {
        Some(k) => k,
        None => return None,
    };
    let ghost rest = s@.subrange(i1 + 1, n as int);
    assert(rest =~= cs@.subrange(i1 + 1, n as int));
    let i2 = match find_char(&cs, i1 + 1, n, '-') {
        Some(k) => k,
        None => return None,
    };
    assert(rest.subrange(0, i2 - i1 - 1) =~= cs@.subrange(i1 + 1, i2 as int));
    assert(rest.subrange(i2 - i1, rest.len() as int) =~= cs@.subrange(i2 + 1, n as int));
    let y = match parse_int(&cs, 0, i1, true, -0x8000_0000i128, 0x7fff_ffffi128) {
        Some(v) => v as i32,
        None => return None,
    };
    let m = match parse_int(&cs, i1 + 1, i2, false, 0, 0xffff_ffffi128) {
        Some(v) => v as u32,
        None => return None,
    };
    let d = match parse_int(&cs, i2 + 1, n, false, 0, 0xffff_ffffi128) {
        Some(v) => v as u32,
        None => return None,
    };
    chrono_epoch_days(y, m, d)
}

/// chrono's `%Y`: four digits for years 0 to 9999, otherwise a sign and at
/// least four digits.
pub open spec fn year_text(y: int) -> Seq<char> {
    if 0 <= y <= 9999 {
        zero_padded(y, 4)
    } else if y > 9999 {
        seq!['+'] + zero_padded(y, 4)
    } else {
        zero_padded(y, 5)
    }
}

/// chrono's `%Y-%m-%d`.
pub open spec fn ymd_text(y: int, m: int, d: int) -> Seq<char> {
    year_text(y) + seq!['-'] + zero_padded(m, 2) + seq!['-'] + zero_padded(d, 2)
}

/// `year_text(y)`.
fn year_chars(y: i32) -> (v: Vec<char>)
    ensures
        v@ == year_text(y as int),
{
    if 0 <= y && y <= 9999 {
        zero_padded_chars(y as i128, 4)
    } else if y > 9999 {
        let mut v: Vec<char> = Vec::new();
        v.push('+');
        let digits = zero_padded_chars(y as i128, 4);
        append_chars(&mut v, &digits);
        assert(v@ =~= year_text(y as int));
        v
    } else {
        zero_padded_chars(y as i128, 5)
    }
}

/// `ymd_text(y, m, d)`.
fn ymd_chars(y: i32, m: u32, d: u32) -> (v: Vec<char>)
    ensures
        v@ == ymd_text(y as int, m as int, d as int),
{
    let mut v = year_chars(y);
    v.push('-');
    let mv = zero_padded_chars(m as i128, 2);
    append_chars(&mut v, &mv);
    v.push('-');
    let dv = zero_padded_chars(d as i128, 2);
    append_chars(&mut v, &dv);
    assert(v@ =~= ymd_text(y as int, m as int, d as int));
    v
}

/// chrono's `%Y-%m-%d` of the date `n` days after 1970-01-01.
pub open spec fn date_text(n: int) -> Seq<char> {
    ymd_text(civil_from_days(n).0, civil_from_days(n).1, civil_from_days(n).2)
}

/// A `Y-m-d` text of a year from 0 and a two-digit month and day splits back
/// into the same numbers.
#[verifier::rlimit(30)]
pub(crate) proof fn lemma_ymd_fields(y: int, m: int, d: int)
    requires
        0 <= y <= 0x7fff_ffff,
        0 <= m <= 99,
        0 <= d <= 99,
    ensures
        date_fields(ymd_text(y, m, d)) == Some((y, m, d)),
{
    let ys = year_text(y);
    let ms = zero_padded(m, 2);
    let ds = zero_padded(d, 2);
    lemma_zero_padded_digits(y, 4);
    lemma_zero_padded_digits(m, 2);
    lemma_zero_padded_digits(d, 2);
    lemma_digits_lack(ms, '-');
    lemma_digits_lack(zero_padded(y, 4), '-');
    if y > 9999 {
        let z = zero_padded(y, 4);
        assert(ys =~= seq!['+'] + z);
        assert(ys.drop_first() =~= z);
        assert forall|j: int| 0 <= j < ys.len() implies ys[j] != '-' by {
            if j > 0 {
                assert(ys[j] == z[j - 1]);
                assert(is_digit(z[j - 1]));
            }
        }
        lemma_index_of(ys, '-', ys.len() as int);
        assert(parse_int_text(ys, true) == Some(y));
    }
    assert(index_of(ys, '-') is None);
    assert(parse_i32_text(ys) == Some(y));
    let s = ymd_text(y, m, d);
    let rest = ms + seq!['-'] + ds;
    assert(s =~= ys + seq!['-'] + rest);
    assert forall|j: int| 0 <= j < ys.len() implies s[j] != '-' by {
        assert(s[j] == ys[j]);
        if y <= 9999 {
            assert(is_digit(ys[j]));
        } else if j > 0 {
            assert(ys[j] == zero_padded(y, 4)[j - 1]);
            assert(is_digit(zero_padded(y, 4)[j - 1]));
        }
    }
    lemma_index_of(s, '-', ys.len() as int);
    assert(s.subrange(0, ys.len() as int) =~= ys);
    assert(s.subrange(ys.len() as int + 1, s.len() as int) =~= rest);
    assert forall|j: int| 0 <= j < ms.len() implies rest[j] != '-' by {
        assert(rest[j] == ms[j]);
        assert(is_digit(ms[j]));
    }
    lemma_index_of(rest, '-', ms.len() as int);
    assert(rest.subrange(0, ms.len() as int) =~= ms);
    assert(rest.subrange(ms.len() as int + 1, rest.len() as int) =~= ds);
}

/// Day number of 0000-01-01, the first date whose `Y-m-d` text has no sign.
pub open spec fn first_day_of_year_zero() -> int {
    -719528
}

/// Every date of a negative year comes before 0000-01-01.
pub(crate) proof fn lemma_days_before_year_zero(y: int, m: int, d: int)
    requires
        y < 0,
        valid_ymd(y, m, d),
    ensures
        days_from_civil(y, m, d) < first_day_of_year_zero(),
{
    let yy = if m <= 2 { y - 1 } else { y };
    let era = yy / 400;
    let yoe = yy - era * 400;
    let mp = (m + 9) % 12;
    let doy = (153 * mp + 2) / 5 + d - 1;
    assert(0 <= yoe < 400);
    assert(era <= -1);
    assert(d <= 31);
    if m <= 2 {
        assert(mp == m + 9);
        assert(doy <= 365);
        assert(yy <= -2);
        if era == -1 {
            assert(yoe <= 398);
        }
    } else {
        assert(mp == m - 3);
        assert(doy <= 305) by {
            assert((153 * mp + 2) / 5 <= 275);
        }
    }
    let doe = yoe * 365 + yoe / 4 - yoe / 100 + doy;
    if era == -1 {
        assert(doe <= 146096 - 60);
    } else {
        assert(doe <= 146096);
        assert(era * 146097 <= -2 * 146097);
    }
}

/// The `Y-m-d` text of a day count since 1970-01-01 (negative counts are
/// days before it). The text of a count from 0 reads back as that count.
pub fn format_date_days(days: i32) -> (s: String)
    requires
        min_epoch_day() <= days <= max_epoch_day(),
    ensures
        s@ == date_text(days as int),
        days >= first_day_of_year_zero() ==> date_days(s@) == Some(days as int),
{
    match chrono_date_of_epoch_days(days) {
        Some((y, m, d)) => {
            let v = ymd_chars(y, m, d);
            let s = chars_to_string(&v);
            proof {
                lemma_days_from_civil(y as int, m as int, d as int);
                if days >= first_day_of_year_zero() {
                    assert(y >= 0) by {
                        if y < 0 {
                            lemma_days_before_year_zero(y as int, m as int, d as int);
                        }
                    }
                    lemma_ymd_fields(y as int, m as int, d as int);
                }
            }
            s
        },
        None => {
            assert(false);
            String::new()
        },
    }
}

/// Microseconds since the Unix epoch of a text that chrono parses as a
/// `DateTime<Utc>` (a relaxed RFC 3339 form), `None` when chrono refuses it.
pub uninterp spec fn utc_datetime_micros(s: Seq<char>) -> Option<i64>;

/// Microseconds since the Unix epoch of a text that chrono's
/// `NaiveDateTime::parse_from_str` reads with the format `fmt`, taken as UTC;
/// `None` when chrono refuses it.
pub uninterp spec fn naive_datetime_micros(s: Seq<char>, fmt: Seq<char>) -> Option<i64>;

/// Calls `s.parse::<DateTime<Utc>>()` and, on success,
/// `DateTime::timestamp_micros`. The result is named, not described: chrono
/// accepts several spellings of RFC 3339, which this crate does not restate.
#[verifier::external_body]
fn parse_utc_datetime(s: &str) -> (r: Option<i64>)
    ensures
        r == utc_datetime_micros(s@),
{
    s.parse::<chrono::DateTime<chrono::Utc>>().ok().map(|dt| dt.timestamp_micros())
}

/// Calls `NaiveDateTime::parse_from_str(s, fmt)` and, on success,
/// `and_utc().timestamp_micros()`. The result is named, not described.
#[verifier::external_body]
fn parse_naive_datetime(s: &str, fmt: &str) -> (r: Option<i64>)
    ensures
        r == naive_datetime_micros(s@, fmt@),
{
    chrono::NaiveDateTime::parse_from_str(s, fmt).ok().map(|dt| dt.and_utc().timestamp_micros())
}

/// Microseconds since the Unix epoch of a date-time text: first as RFC 3339
/// (`DateTime<Utc>`), then as `%Y-%m-%d %H:%M:%S`, then as
/// `%Y-%m-%dT%H:%M:%S`, the last two taken as UTC.
pub open spec fn datetime_micros(s: Seq<char>) -> Option<i64> {
    match utc_datetime_micros(s) {
        Some(v) => Some(v),
        None => match naive_datetime_micros(s, "%Y-%m-%d %H:%M:%S"@) {
            Some(v) => Some(v),
            None => naive_datetime_micros(s, "%Y-%m-%dT%H:%M:%S"@),
        },
    }
}

/// Microseconds since the Unix epoch of an ISO 8601 date-time text.
pub fn parse_datetime_to_micros(s: &str) -> (r: Option<i64>)
    ensures
        r == datetime_micros(s@),
{
    if let Some(v) = parse_utc_datetime(s) {
        return Some(v);
    }
    if let Some(v) = parse_naive_datetime(s, "%Y-%m-%d %H:%M:%S") {
        return Some(v);
    }
    if let Some(v) = parse_naive_datetime(s, "%Y-%m-%dT%H:%M:%S") {
        return Some(v);
    }
    None
}

/// First microsecond chrono's `DateTime<Utc>` can hold (-262143-01-01).
pub open spec fn min_timestamp_micros() -> int {
    -8334601228800000000
}

/// Last microsecond chrono's `DateTime<Utc>` can hold (262142-12-31
/// 23:59:59.999999).
pub open spec fn max_timestamp_micros() -> int {
    8210266876799999999
}

/// The instant `days_from_civil(y, mo, d)` days, `h` hours, `mi` minutes, `se`
/// seconds and `us` microseconds after the Unix epoch.
pub open spec fn instant_micros(y: int, mo: int, d: int, h: int, mi: int, se: int, us: int) -> int {
    days_from_civil(y, mo, d) * 86_400_000_000 + h * 3_600_000_000 + mi * 60_000_000 + se * 1_000_000 + us
}

/// The UTC calendar fields of a microsecond timestamp: year, month, day,
/// hour, minute, second and microsecond.
pub open spec fn utc_fields(micros: int) -> (int, int, int, int, int, int, int) {
    let days = micros / 86_400_000_000;
    let rem = micros % 86_400_000_000;
    let (y, mo, d) = civil_from_days(days);
    (y, mo, d, rem / 3_600_000_000, rem % 3_600_000_000 / 60_000_000, rem % 60_000_000 / 1_000_000, rem % 1_000_000)
}

/// The UTC calendar fields of a microsecond timestamp: year, month, day,
/// hour, minute, second and nanosecond.
///
/// Calls chrono's `DateTime::from_timestamp_micros` and reads the fields of
/// the date-time it makes. The contract claims what chrono documents: a
/// date-time is made exactly when the timestamp lies in chrono's range, and
/// it is the (non-leap) UTC date-time of that timestamp; `lemma_utc_fields`
/// shows that these are the fields `utc_fields` writes out.
#[verifier::external_body]
fn chrono_utc_fields(micros: i64) -> (r: Option<(i32, u32, u32, u32, u32, u32, u32)>)
    ensures
        r is Some <==> min_timestamp_micros() <= micros <= max_timestamp_micros(),
        r matches Some((y, mo, d, h, mi, se, ns)) ==> {
            &&& valid_ymd(y as int, mo as int, d as int)
            &&& h < 24 && mi < 60 && se < 60 && ns < 1_000_000_000 && ns % 1000 == 0
            &&& instant_micros(y as int, mo as int, d as int, h as int, mi as int, se as int, ns as int / 1000) == micros
        },
{
    chrono::DateTime::from_timestamp_micros(micros).map(
        |dt| (dt.year(), dt.month(), dt.day(), dt.hour(), dt.minute(), dt.second(), dt.nanosecond()),
    )
}

/// chrono's `%Y-%m-%dT%H:%M:%S%.6fZ`.
pub open spec fn datetime_text(y: int, mo: int, d: int, h: int, mi: int, se: int, us: int) -> Seq<char> {
    ymd_text(y, mo, d) + seq!['T'] + zero_padded(h, 2) + seq![':'] + zero_padded(mi, 2) + seq![':'] + zero_padded(se, 2)
        + seq!['.'] + zero_padded(us, 6) + seq!['Z']
}

/// chrono's `%Y-%m-%dT%H:%M:%S%.6fZ` of a microsecond timestamp.
pub open spec fn timestamp_text(micros: int) -> Seq<char> {
    let f = utc_fields(micros);
    datetime_text(f.0, f.1, f.2, f.3, f.4, f.5, f.6)
}

/// `datetime_text(y, mo, d, h, mi, se, us)`.
fn datetime_chars(y: i32, mo: u32, d: u32, h: u32, mi: u32, se: u32, us: u32) -> (v: Vec<char>)
    ensures
        v@ == datetime_text(y as int, mo as int, d as int, h as int, mi as int, se as int, us as int),
{
    let mut v = ymd_chars(y, mo, d);
    v.push('T');
    let hv = zero_padded_chars(h as i128, 2);
    append_chars(&mut v, &hv);
    v.push(':');
    let mv = zero_padded_chars(mi as i128, 2);
    append_chars(&mut v, &mv);
    v.push(':');
    let sv = zero_padded_chars(se as i128, 2);
    append_chars(&mut v, &sv);
    v.push('.');
    let uv = zero_padded_chars(us as i128, 6);
    append_chars(&mut v, &uv);
    v.push('Z');
    assert(v@ =~= datetime_text(y as int, mo as int, d as int, h as int, mi as int, se as int, us as int));
    v
}

proof fn lemma_timestamp_text(micros: int, y: int, mo: int, d: int, h: int, mi: int, se: int, ns: int)
    requires
        valid_ymd(y, mo, d),
        0 <= h < 24 && 0 <= mi < 60 && 0 <= se < 60 && 0 <= ns < 1_000_000_000,
        instant_micros(y, mo, d, h, mi, se, ns / 1000) == micros,
    ensures
        timestamp_text(micros) == datetime_text(y, mo, d, h, mi, se, ns / 1000 % 1_000_000),
{
    lemma_utc_fields(y, mo, d, h, mi, se, ns / 1000);
    assert(ns / 1000 % 1_000_000 == ns / 1000);
}

proof fn lemma_datetime_witness(s: Seq<char>, micros: int, y: int, mo: int, d: int, h: int, mi: int, se: int, us: int)
    requires
        valid_ymd(y, mo, d) && 0 <= h < 24 && 0 <= mi < 60 && 0 <= se < 60 && 0 <= us < 1_000_000,
        instant_micros(y, mo, d, h, mi, se, us) == micros,
        s == datetime_text(y, mo, d, h, mi, se, us),
    ensures
        exists|y: int, mo: int, d: int, h: int, mi: int, se: int, us: int|
            #![trigger datetime_text(y, mo, d, h, mi, se, us)]
            valid_ymd(y, mo, d) && 0 <= h < 24 && 0 <= mi < 60 && 0 <= se < 60 && 0 <= us < 1_000_000
                && instant_micros(y, mo, d, h, mi, se, us) == micros
                && s == datetime_text(y, mo, d, h, mi, se, us),
{
}

/// The ISO 8601 UTC text of a microsecond timestamp, `None` when chrono cannot
/// hold it.
#[verifier::spinoff_prover]
pub fn format_datetime_micros(micros: i64) -> (r: Option<String>)
    ensures
        r is Some <==> min_timestamp_micros() <= micros <= max_timestamp_micros(),
        r matches Some(s) ==> exists|y: int, mo: int, d: int, h: int, mi: int, se: int, us: int|
            #![trigger datetime_text(y, mo, d, h, mi, se, us)]
            valid_ymd(y, mo, d) && 0 <= h < 24 && 0 <= mi < 60 && 0 <= se < 60 && 0 <= us < 1_000_000
                && instant_micros(y, mo, d, h, mi, se, us) == micros
                && s@ == datetime_text(y, mo, d, h, mi, se, us),
        r matches Some(s) ==> s@ == timestamp_text(micros as int),
{
    match chrono_utc_fields(micros) {
        Some((y, mo, d, h, mi, se, ns)) => {
            let us = ns / 1000 % 1_000_000;
            let v = datetime_chars(y, mo, d, h, mi, se, us);
            let s = chars_to_string(&v);
            proof {
                lemma_timestamp_text(micros as int, y as int, mo as int, d as int, h as int, mi as int, se as int, ns as int);
                lemma_datetime_witness(s@, micros as int, y as int, mo as int, d as int, h as int, mi as int, se as int, us as int);
            }
            Some(s)
        },
        None => None,
    }
}

} // verus!
