use vstd::prelude::*;
use vstd::arithmetic::div_mod::{
    lemma_fundamental_div_mod, lemma_fundamental_div_mod_converse_div, lemma_fundamental_div_mod_converse_mod,
    lemma_mod_multiples_vanish,
};

use crate::temporal::{
    civil_from_days, date_days, date_text, days_from_civil, days_in_month, instant_micros, is_leap_year, lemma_ymd_fields,
    max_epoch_day, utc_fields, first_day_of_year_zero, lemma_days_before_year_zero,
};

verus! {

/// Days from the start of a 400-year era (1 March of its year 0) to the
/// start of its year `t`.
pub open spec fn era_year_start(t: int) -> int {
    365 * t + t / 4 - t / 100
}

/// The year of an era a day of the era falls in, as `civil_from_days`
/// computes it.
pub open spec fn year_of_era(doe: int) -> int {
    (doe - doe / 1460 + doe / 36524 - doe / 146096) / 365
}

/// The length of year `t` of an era, which ends with February of the
/// calendar year `t + 1`.
pub open spec fn era_year_len(t: int) -> int {
    if is_leap_year(t + 1) {
        366
    } else {
        365
    }
}

proof fn lemma_div_is(x: int, d: int, q: int)
    requires
        d > 0,
        d * q <= x < d * q + d,
    ensures
        x / d == q,
{
    assert(q * d == d * q) by (nonlinear_arith);
    lemma_fundamental_div_mod_converse_div(x, d, q, x - d * q);
}

/// The year `civil_from_days` computes for a day of an era is the year the
/// day falls in.
pub proof fn lemma_year_of_era(t: int, doy: int)
    requires
        0 <= t < 400,
        0 <= doy < era_year_len(t),
    ensures
        year_of_era(era_year_start(t) + doy) == t,
{
    let c = t / 100;
    let q = (t % 100) / 4;
    let r = (t % 100) % 4;
    lemma_fundamental_div_mod(t, 100);
    lemma_fundamental_div_mod(t % 100, 4);
    assert(t == 100 * c + 4 * q + r);
    assert(0 <= c <= 3 && 0 <= q <= 24 && 0 <= r <= 3);
    lemma_div_is(t, 4, 25 * c + q);
    lemma_div_is(t, 100, c);
    let doe = era_year_start(t) + doy;
    assert(doe == 36524 * c + 1461 * q + 365 * r + doy);
    if doy == 365 {
        assert(is_leap_year(t + 1));
        assert(r == 3) by {
            lemma_fundamental_div_mod(t + 1, 4);
        }
        if q == 24 {
            assert(c == 3) by {
                assert(t + 1 == 100 * (c + 1));
                lemma_fundamental_div_mod(t + 1, 400);
            }
        }
    }
    let big = 24 * c + q + 365 * r + doy;
    let a_extra: int = if big >= 1460 { 1 } else { 0 };
    lemma_div_is(doe, 1460, 25 * c + q + a_extra);
    let b_extra: int = if 1461 * q + 365 * r + doy >= 36524 { 1 } else { 0 };
    lemma_div_is(doe, 36524, c + b_extra);
    let e: int = if doe >= 146096 { 1 } else { 0 };
    lemma_div_is(doe, 146096, e);
    let n = doe - (25 * c + q + a_extra) + (c + b_extra) - e;
    assert(n == 365 * t + doy - a_extra + b_extra - e);
    lemma_div_is(n, 365, t);
}

/// Each year of an era starts where the previous one ends, and the last
/// one ends where the era does, after 146097 days.
proof fn lemma_era_year_step(t: int)
    requires
        0 <= t < 400,
    ensures
        t < 399 ==> era_year_start(t + 1) == era_year_start(t) + era_year_len(t),
        t == 399 ==> era_year_start(t) + era_year_len(t) == 146097,
{
    let c = t / 100;
    let rem = t % 100;
    lemma_fundamental_div_mod(t, 100);
    lemma_fundamental_div_mod(rem, 4);
    lemma_fundamental_div_mod(t, 4);
    lemma_fundamental_div_mod(t + 1, 4);
    lemma_fundamental_div_mod(t + 1, 100);
    lemma_fundamental_div_mod(t + 1, 400);
    let q = rem / 4;
    let r = rem % 4;
    lemma_div_is(t, 4, 25 * c + q);
    lemma_div_is(t, 100, c);
    if r < 3 {
        lemma_div_is(t + 1, 4, 25 * c + q);
        lemma_div_is(t + 1, 100, c);
        assert((t + 1) % 4 == r + 1);
        assert(!is_leap_year(t + 1));
        assert(era_year_len(t) == 365);
        assert(era_year_start(t + 1) == 365 * (t + 1) + (25 * c + q) - c);
        assert(era_year_start(t) == 365 * t + (25 * c + q) - c);
    } else if q < 24 {
        lemma_div_is(t + 1, 4, 25 * c + q + 1);
        lemma_div_is(t + 1, 100, c);
        assert((t + 1) % 4 == 0);
        assert((t + 1) % 100 == 4 * q + 4);
        assert(is_leap_year(t + 1));
        assert(era_year_len(t) == 366);
        assert(era_year_start(t + 1) == 365 * (t + 1) + (25 * c + q + 1) - c);
        assert(era_year_start(t) == 365 * t + (25 * c + q) - c);
    } else {
        lemma_div_is(t + 1, 4, 25 * c + q + 1);
        lemma_div_is(t + 1, 100, c + 1);
        assert((t + 1) % 4 == 0 && (t + 1) % 100 == 0);
        assert(era_year_start(t + 1) == 365 * (t + 1) + (25 * c + q + 1) - (c + 1));
        assert(era_year_start(t) == 365 * t + (25 * c + q) - c);
        if c == 3 {
            lemma_div_is(t + 1, 400, 1);
            assert(is_leap_year(t + 1));
            assert(era_year_len(t) == 366);
        } else {
            lemma_div_is(t + 1, 400, 0);
            assert(!is_leap_year(t + 1));
            assert(era_year_len(t) == 365);
        }
    }
}

/// The year of an era a day of it falls in: some year starts at or before
/// the day and ends after it.
proof fn lemma_era_cover(doe: int, k: int) -> (t: int)
    requires
        0 <= k < 400,
        era_year_start(k) <= doe < 146097,
    ensures
        k <= t < 400,
        era_year_start(t) <= doe < era_year_start(t) + era_year_len(t),
    decreases 400 - k,
{
    lemma_era_year_step(k);
    if doe < era_year_start(k) + era_year_len(k) {
        k
    } else if k == 399 {
        assert(false);
        k
    } else {
        lemma_era_cover(doe, k + 1)
    }
}

/// The first day of month `mp` of a year starting in March.
pub open spec fn month_start(mp: int) -> int {
    (153 * mp + 2) / 5
}

/// The length of month `mp` of a year starting in March: February (the
/// last) has 28 days, 29 in a leap year.
pub open spec fn month_len(mp: int, leap: bool) -> int {
    if mp == 11 {
        if leap {
            29
        } else {
            28
        }
    } else if mp == 1 || mp == 3 || mp == 6 || mp == 8 {
        30
    } else {
        31
    }
}

/// The month `civil_from_days` computes for a day of a year starting in
/// March is the month the day falls in.
proof fn lemma_month_of_day(doy: int, mp: int)
    requires
        0 <= mp <= 11,
        month_start(mp) <= doy < month_start(mp) + month_len(mp, true),
    ensures
        (5 * doy + 2) / 153 == mp,
{
    lemma_fundamental_div_mod(153 * mp + 2, 5);
    assert(5 * month_start(mp) + 4 >= 153 * mp + 2);
    assert(5 * month_start(mp) <= 153 * mp + 2);
    assert(5 * (month_start(mp) + month_len(mp, true) - 1) + 2 < 153 * mp + 153) by {
        if mp == 0 {
        } else if mp == 1 {
        } else if mp == 2 {
        } else if mp == 3 {
        } else if mp == 4 {
        } else if mp == 5 {
        } else if mp == 6 {
        } else if mp == 7 {
        } else if mp == 8 {
        } else if mp == 9 {
        } else if mp == 10 {
        } else {
        }
    }
    lemma_div_is(5 * doy + 2, 153, mp);
}

/// Each month of a year starting in March starts where the previous one
/// ends; February, the last, ends with the year.
proof fn lemma_month_step(mp: int)
    requires
        0 <= mp < 11,
    ensures
        month_start(mp + 1) == month_start(mp) + month_len(mp, true),
{
    if mp == 0 {
    } else if mp == 1 {
    } else if mp == 2 {
    } else if mp == 3 {
    } else if mp == 4 {
    } else if mp == 5 {
    } else if mp == 6 {
    } else if mp == 7 {
    } else if mp == 8 {
    } else if mp == 9 {
    } else {
    }
}

/// The month of a year starting in March a day of it falls in.
proof fn lemma_month_cover(doy: int, k: int) -> (mp: int)
    requires
        0 <= k <= 11,
        month_start(k) <= doy < 366,
    ensures
        k <= mp <= 11,
        month_start(mp) <= doy < month_start(mp) + month_len(mp, true),
    decreases 11 - k,
{
    if k == 11 {
        assert(month_start(11) == 337);
        k
    } else {
        lemma_month_step(k);
        if doy < month_start(k) + month_len(k, true) {
            k
        } else {
            lemma_month_cover(doy, k + 1)
        }
    }
}

/// A year's leap-ness repeats every 400 years.
proof fn lemma_leap_period(x: int, k: int)
    ensures
        is_leap_year(x + 400 * k) == is_leap_year(x),
{
    lemma_mod_multiples_vanish(100 * k, x, 4);
    lemma_mod_multiples_vanish(4 * k, x, 100);
    lemma_mod_multiples_vanish(k, x, 400);
    assert(4 * (100 * k) + x == x + 400 * k);
    assert(100 * (4 * k) + x == x + 400 * k);
    assert(400 * k + x == x + 400 * k);
}

/// A year of an era ends no later than the era.
proof fn lemma_era_year_end(t: int)
    requires
        0 <= t < 400,
    ensures
        era_year_start(t) + era_year_len(t) <= 146097,
    decreases 400 - t,
{
    lemma_era_year_step(t);
    if t < 399 {
        lemma_era_year_end(t + 1);
    }
}

/// The month of a year starting in March, as a calendar month.
pub open spec fn calendar_month(mp: int) -> int {
    if mp < 10 {
        mp + 3
    } else {
        mp - 9
    }
}

/// `civil_from_days` gives a date of the calendar, and that date's day
/// number is the one it was computed from.
pub proof fn lemma_civil_from_days(n: int)
    ensures
        1 <= civil_from_days(n).1 <= 12,
        1 <= civil_from_days(n).2 <= days_in_month(civil_from_days(n).0, civil_from_days(n).1),
        days_from_civil(civil_from_days(n).0, civil_from_days(n).1, civil_from_days(n).2) == n,
{
    let z = n + 719468;
    let era = z / 146097;
    lemma_fundamental_div_mod(z, 146097);
    let doe = z - era * 146097;
    assert(0 <= doe < 146097);
    let t = lemma_era_cover(doe, 0);
    let doy = doe - era_year_start(t);
    lemma_year_of_era(t, doy);
    assert(year_of_era(doe) == t);
    let mp = lemma_month_cover(doy, 0);
    lemma_month_of_day(doy, mp);
    let d = doy - month_start(mp) + 1;
    let m = calendar_month(mp);
    let y = t + era * 400 + if m <= 2 { 1int } else { 0int };
    assert(civil_from_days(n) == (y, m, d));
    let yy = t + era * 400;
    lemma_div_is(yy, 400, era);
    if mp < 10 {
        lemma_div_is(m + 9, 12, 1);
    } else {
        lemma_div_is(m + 9, 12, 0);
    }
    assert((m + 9) % 12 == mp);
    if mp == 11 && d == 29 {
        assert(doy == 365);
        assert(is_leap_year(t + 1));
        lemma_leap_period(t + 1, era);
    }
    assert(days_from_civil(y, m, d) == n);
}

/// The date of a day number is the date the number was computed from.
pub proof fn lemma_days_from_civil(y: int, m: int, d: int)
    requires
        1 <= m <= 12,
        1 <= d <= days_in_month(y, m),
    ensures
        civil_from_days(days_from_civil(y, m, d)) == (y, m, d),
{
    let yy = if m <= 2 { y - 1 } else { y };
    let era = yy / 400;
    lemma_fundamental_div_mod(yy, 400);
    let t = yy - era * 400;
    assert(0 <= t < 400);
    let mp = (m + 9) % 12;
    if m >= 3 {
        lemma_div_is(m + 9, 12, 1);
    } else {
        lemma_div_is(m + 9, 12, 0);
    }
    assert(calendar_month(mp) == m);
    let doy = month_start(mp) + d - 1;
    if m == 2 && d == 29 {
        assert(is_leap_year(y));
        assert(y == (t + 1) + 400 * era);
        lemma_leap_period(t + 1, era);
    }
    assert(month_start(mp) <= doy < month_start(mp) + month_len(mp, true)) by {
        if mp == 0 {
        } else if mp == 1 {
        } else if mp == 2 {
        } else if mp == 3 {
        } else if mp == 4 {
        } else if mp == 5 {
        } else if mp == 6 {
        } else if mp == 7 {
        } else if mp == 8 {
        } else if mp == 9 {
        } else if mp == 10 {
        } else {
        }
    }
    assert(doy < era_year_len(t));
    lemma_era_year_end(t);
    let doe = era_year_start(t) + doy;
    let n = days_from_civil(y, m, d);
    assert(n == era * 146097 + doe - 719468);
    lemma_div_is(n + 719468, 146097, era);
    lemma_year_of_era(t, doy);
    lemma_month_of_day(doy, mp);
}

proof fn lemma_mod_is(x: int, d: int, q: int)
    requires
        d > 0,
        d * q <= x < d * q + d,
    ensures
        x % d == x - d * q,
{
    assert(q * d == d * q) by (nonlinear_arith);
    lemma_fundamental_div_mod_converse_mod(x, d, q, x - d * q);
}

/// The UTC fields of the instant of a date and a time of day are that date
/// and time.
pub proof fn lemma_utc_fields(y: int, mo: int, d: int, h: int, mi: int, se: int, us: int)
    requires
        1 <= mo <= 12,
        1 <= d <= days_in_month(y, mo),
        0 <= h < 24,
        0 <= mi < 60,
        0 <= se < 60,
        0 <= us < 1_000_000,
    ensures
        utc_fields(instant_micros(y, mo, d, h, mi, se, us)) == (y, mo, d, h, mi, se, us),
{
    let days = days_from_civil(y, mo, d);
    let tod = h * 3_600_000_000 + mi * 60_000_000 + se * 1_000_000 + us;
    let micros = instant_micros(y, mo, d, h, mi, se, us);
    assert(micros == 86_400_000_000 * days + tod);
    lemma_div_is(micros, 86_400_000_000, days);
    lemma_mod_is(micros, 86_400_000_000, days);
    lemma_days_from_civil(y, mo, d);
    lemma_div_is(tod, 3_600_000_000, h);
    lemma_mod_is(tod, 3_600_000_000, h);
    let r1 = mi * 60_000_000 + se * 1_000_000 + us;
    lemma_div_is(r1, 60_000_000, mi);
    lemma_mod_is(tod, 60_000_000, 60 * h + mi);
    lemma_div_is(se * 1_000_000 + us, 1_000_000, se);
    lemma_mod_is(tod, 1_000_000, 3600 * h + 60 * mi + se);
}

/// The years of an era start in order.
proof fn lemma_era_year_start_mono(t: int)
    requires
        0 <= t,
    ensures
        era_year_start(t) >= 365 * t,
{
    let a = t / 100;
    lemma_fundamental_div_mod(t, 100);
    lemma_fundamental_div_mod(t, 4);
    assert(t / 4 >= 25 * a);
}

/// The date of a day number from 1970-01-01 up to the last day chrono
/// holds (262142-12-31) has a year from 1970 up to 262142.
pub proof fn lemma_civil_year_range(n: int)
    requires
        0 <= n <= 95026236,
    ensures
        1970 <= civil_from_days(n).0 <= 262142,
{
    let z = n + 719468;
    let era = z / 146097;
    lemma_fundamental_div_mod(z, 146097);
    let doe = z - era * 146097;
    let t = lemma_era_cover(doe, 0);
    let doy = doe - era_year_start(t);
    lemma_year_of_era(t, doy);
    let mp = lemma_month_cover(doy, 0);
    lemma_month_of_day(doy, mp);
    let m = calendar_month(mp);
    let y = t + era * 400 + if m <= 2 { 1int } else { 0int };
    assert(civil_from_days(n).0 == y);
    assert(4 <= era <= 655);
    if era == 655 {
        assert(doe <= 52169);
        lemma_era_year_start_mono(t);
        assert(t <= 142);
        if t == 142 {
            assert(doy <= 305);
            assert(mp <= 9) by {
                if mp >= 10 {
                    assert(month_start(mp) >= 306);
                }
            }
        }
    }
}

/// The `Y-m-d` text of a day number from 1970-01-01 up to the last day
/// chrono holds reads back as that day number.
pub(crate) proof fn lemma_date_text_roundtrip(n: int)
    requires
        first_day_of_year_zero() <= n <= max_epoch_day(),
    ensures
        date_days(date_text(n)) == Some(n),
{
    lemma_civil_from_days(n);
    let (y, m, d) = civil_from_days(n);
    if n >= 0 {
        lemma_civil_year_range(n);
    } else {
        if y < 0 {
            lemma_days_before_year_zero(y, m, d);
        }
        if y >= 1970 {
            lemma_days_from_year_1970(y, m, d);
        }
    }
    lemma_ymd_fields(y, m, d);
}

/// Every date from 1970 on has a day number from 0.
proof fn lemma_days_from_year_1970(y: int, m: int, d: int)
    requires
        y >= 1970,
        1 <= m <= 12,
        1 <= d,
    ensures
        days_from_civil(y, m, d) >= 0,
{
    let yy = if m <= 2 { y - 1 } else { y };
    let era = yy / 400;
    let yoe = yy - era * 400;
    let mp = (m + 9) % 12;
    let doy = (153 * mp + 2) / 5 + d - 1;
    assert(0 <= yoe < 400);
    assert(era >= 4);
    assert(doy >= 0);
    let doe = yoe * 365 + yoe / 4 - yoe / 100 + doy;
    if era == 4 {
        assert(yoe >= 369);
        if yoe == 369 {
            assert(m <= 2);
            assert(mp == m + 9);
            assert(doy >= 306);
        } else {
            assert(yoe * 365 >= 370 * 365);
        }
    } else {
        assert(era * 146097 >= 5 * 146097);
    }
}

} // verus!
