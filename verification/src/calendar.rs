//! The proleptic Gregorian calendar, counted in days from 1970-01-01.

use vstd::prelude::*;

verus! {

/// Gregorian leap years: every fourth year, except centuries not divisible by 400.
pub open spec fn is_leap_year(y: int) -> bool {
    y % 4 == 0 && (y % 100 != 0 || y % 400 == 0)
}

pub open spec fn days_in_month(y: int, m: int) -> int {
    if m == 2 {
        if is_leap_year(y) {
            29
        } else {
            28
        }
    } else if m == 4 || m == 6 || m == 9 || m == 11 {
        30
    } else {
        31
    }
}

/// `(y, m, d)` names a day of the calendar: a month from 1 to 12 and a day within that month.
pub open spec fn is_valid_date(y: int, m: int, d: int) -> bool {
    1 <= m <= 12 && 1 <= d <= days_in_month(y, m)
}

/// The number of leap years among the years `1..=n` (for `n < 1`, minus the number among
/// `n+1..=0`): multiples of 4, less multiples of 100, plus multiples of 400.
pub open spec fn leap_years_through(n: int) -> int {
    n / 4 - n / 100 + n / 400
}

/// Days from 1970-01-01 to January 1st of year `y`.
pub open spec fn days_before_year(y: int) -> int {
    365 * (y - 1970) + leap_years_through(y - 1) - leap_years_through(1969)
}

/// Days from January 1st to the first day of month `m` of year `y`.
pub open spec fn days_before_month(y: int, m: int) -> int {
    let common: int = if m <= 1 {
        0
    } else if m == 2 {
        31
    } else if m == 3 {
        59
    } else if m == 4 {
        90
    } else if m == 5 {
        120
    } else if m == 6 {
        151
    } else if m == 7 {
        181
    } else if m == 8 {
        212
    } else if m == 9 {
        243
    } else if m == 10 {
        273
    } else if m == 11 {
        304
    } else {
        334
    };
    common + if m > 2 && is_leap_year(y) {
        1int
    } else {
        0int
    }
}

/// Days from 1970-01-01 (UTC) to the date `(y, m, d)`; negative before the epoch.
pub open spec fn days_from_civil(y: int, m: int, d: int) -> int {
    days_before_year(y) + days_before_month(y, m) + d - 1
}

/// The date that lies `z` days after 1970-01-01 (before it, for negative `z`).
pub open spec fn date_of_day(z: int) -> (int, int, int) {
    choose|date: (int, int, int)|
        is_valid_date(date.0, date.1, date.2) && days_from_civil(date.0, date.1, date.2) == z
}

// ---------------------------------------------------------------------------
// The computation is organised around eras of 400 years (146097 days) that start on
// March 1st, so that the leap day falls at the end of each year of the era.
/// Offset of the first day of year `k` of an era, counted from March 1st of year 0 of the era.
spec fn year_start(k: int) -> int {
    365 * k + k / 4 - k / 100
}

/// Length of year `k` of an era: its February lies in calendar year `k + 1`.
spec fn era_year_len(k: int) -> int {
    if is_leap_year(k + 1) {
        366
    } else {
        365
    }
}

spec fn year_of_era(doe: int) -> int {
    (doe - doe / 1460 + doe / 36524 - doe / 146096) / 365
}

/// Offset of the first day of month `mp` of a year that starts in March (`mp == 0` is March).
spec fn month_start(mp: int) -> int {
    (153 * mp + 2) / 5
}

proof fn lemma_month_starts()
    ensures
        month_start(0) == 0,
        month_start(1) == 31,
        month_start(2) == 61,
        month_start(3) == 92,
        month_start(4) == 122,
        month_start(5) == 153,
        month_start(6) == 184,
        month_start(7) == 214,
        month_start(8) == 245,
        month_start(9) == 275,
        month_start(10) == 306,
        month_start(11) == 337,
        month_start(12) == 367,
{
}

spec fn month_of_year(doy: int) -> int {
    (5 * doy + 2) / 153
}

spec fn civil(z: int) -> (int, int, int) {
    let zz = z + 719468;
    let era = zz / 146097;
    let doe = zz - era * 146097;
    let yoe = year_of_era(doe);
    let doy = doe - year_start(yoe);
    let mp = month_of_year(doy);
    let d = doy - month_start(mp) + 1;
    let m = if mp < 10 {
        mp + 3
    } else {
        mp - 9
    };
    (yoe + era * 400 + if m <= 2 {
        1int
    } else {
        0int
    }, m, d)
}

/// A year of an era, written as `100 * c + 4 * q + r` with its start and its length.
proof fn lemma_year_split(c: int, q: int, r: int)
    requires
        0 <= c <= 3,
        0 <= q <= 24,
        0 <= r <= 3,
    ensures
        year_start(100 * c + 4 * q + r) == 36524 * c + 1461 * q + 365 * r,
        is_leap_year(100 * c + 4 * q + r + 1) <==> (r == 3 && (q != 24 || c == 3)),
{
    let k = 100 * c + 4 * q + r;
    assert(k / 4 == 25 * c + q);
    assert(k / 100 == c);
    let n = k + 1;
    if r == 3 {
        assert(n % 4 == 0);
        if q == 24 {
            assert(n == 100 * (c + 1));
            assert(n % 100 == 0);
            assert(n % 400 == 0 <==> c == 3);
        } else {
            assert(n % 100 != 0);
        }
    } else {
        assert(n % 4 == r + 1);
    }
}

/// Within an era, the day `year_start(k) + j` of year `k` is found in year `k`.
proof fn lemma_year_of_era_exact(c: int, q: int, r: int, j: int)
    requires
        0 <= c <= 3,
        0 <= q <= 24,
        0 <= r <= 3,
        0 <= j < era_year_len(100 * c + 4 * q + r),
    ensures
        year_of_era(36524 * c + 1461 * q + 365 * r + j) == 100 * c + 4 * q + r,
{
    lemma_year_split(c, q, r);
    let doe = 36524 * c + 1461 * q + 365 * r + j;
    let k = 100 * c + 4 * q + r;
    if c == 3 && q == 24 && r == 3 && j == 365 {
        assert(doe == 146096);
        assert(year_of_era(146096) == 399);
    } else {
        assert(doe < 146096);
        assert(doe / 146096 == 0);
        assert(1461 * q + 365 * r + j < 36524);
        assert(doe / 36524 == c);
        let t = 24 * c + q + 365 * r + j;
        assert(doe == 1460 * (25 * c + q) + t);
        if t >= 1460 {
            assert(t < 2920);
            assert(doe / 1460 == 25 * c + q + 1);
            assert(r == 3);
            assert(j >= 1);
            let f = doe - doe / 1460 + doe / 36524 - doe / 146096;
            assert(f == 365 * k + (j - 1));
            assert(j - 1 < 365);
            assert(f / 365 == k);
        } else {
            assert(doe / 1460 == 25 * c + q);
            let f = doe - doe / 1460 + doe / 36524 - doe / 146096;
            assert(f == 365 * k + j);
            assert(j < 365);
            assert(f / 365 == k);
        }
    }
}

/// Every day of an era lies in exactly one of its years.
proof fn lemma_year_of_era(doe: int)
    requires
        0 <= doe < 146097,
    ensures
        0 <= year_of_era(doe) <= 399,
        year_start(year_of_era(doe)) <= doe,
        doe - year_start(year_of_era(doe)) < era_year_len(year_of_era(doe)),
{
    let c = if doe / 36524 > 3 {
        3
    } else {
        doe / 36524
    };
    let rest = doe - 36524 * c;
    assert(0 <= rest);
    let q = if rest / 1461 > 24 {
        24
    } else {
        rest / 1461
    };
    let rest2 = rest - 1461 * q;
    assert(0 <= rest2);
    let r = if rest2 / 365 > 3 {
        3
    } else {
        rest2 / 365
    };
    let j = rest2 - 365 * r;
    assert(0 <= j);
    lemma_year_split(c, q, r);
    let k = 100 * c + 4 * q + r;
    if r < 3 {
        assert(j < 365);
    } else if q < 24 {
        assert(rest2 < 1461);
        assert(j <= 365);
    } else if c < 3 {
        assert(rest < 36524);
        assert(j < 365);
    } else {
        assert(j <= 365);
    }
    assert(j < era_year_len(k));
    lemma_year_of_era_exact(c, q, r, j);
}

/// A day of a March-based year lies in exactly one of its months.
proof fn lemma_month_of_year(doy: int)
    requires
        0 <= doy <= 365,
    ensures
        0 <= month_of_year(doy) <= 11,
        month_start(month_of_year(doy)) <= doy < month_start(month_of_year(doy) + 1),
{
    let mp = month_of_year(doy);
    assert(153 * mp <= 5 * doy + 2 < 153 * mp + 153);
    assert(5 * month_start(mp) <= 153 * mp + 2);
    assert(5 * month_start(mp + 1) > 153 * mp + 150);
}

proof fn lemma_month_of_year_exact(mp: int, d: int)
    requires
        0 <= mp <= 11,
        1 <= d <= month_start(mp + 1) - month_start(mp),
    ensures
        month_of_year(month_start(mp) + d - 1) == mp,
{
    let doy = month_start(mp) + d - 1;
    assert(5 * month_start(mp) <= 153 * mp + 2 < 5 * month_start(mp) + 5);
    assert(5 * month_start(mp + 1) <= 153 * mp + 155 < 5 * month_start(mp + 1) + 5);
    assert(153 * mp <= 5 * doy + 2 < 153 * mp + 153);
}

proof fn lemma_leap_count_step(n: int)
    ensures
        leap_years_through(n) - leap_years_through(n - 1) == if is_leap_year(n) {
            1int
        } else {
            0int
        },
{
    assert((n / 4 - (n - 1) / 4) == if n % 4 == 0 {
        1int
    } else {
        0int
    });
    assert((n / 100 - (n - 1) / 100) == if n % 100 == 0 {
        1int
    } else {
        0int
    });
    assert((n / 400 - (n - 1) / 400) == if n % 400 == 0 {
        1int
    } else {
        0int
    });
    if n % 400 == 0 {
        assert(n % 100 == 0);
        assert(n % 4 == 0);
    } else if n % 100 == 0 {
        assert(n % 4 == 0);
    }
}

proof fn lemma_div_shift(x: int, k: int, n: int)
    requires
        n > 0,
    ensures
        (x + k * n) / n == x / n + k,
        (x + k * n) % n == x % n,
{
    let q = x / n;
    let r = x % n;
    vstd::arithmetic::div_mod::lemma_fundamental_div_mod(x, n);
    assert(x + k * n == n * (q + k) + r) by (nonlinear_arith)
        requires
            x == n * q + r,
    ;
    vstd::arithmetic::div_mod::lemma_div_multiples_vanish_fancy(q + k, r, n);
    vstd::arithmetic::div_mod::lemma_mod_multiples_vanish(q + k, r, n);
    vstd::arithmetic::div_mod::lemma_small_mod(r as nat, n as nat);
}

proof fn lemma_leap_count_era(era: int, yoe: int)
    requires
        0 <= yoe < 400,
    ensures
        leap_years_through(400 * era + yoe) == 97 * era + yoe / 4 - yoe / 100,
        is_leap_year(400 * era + yoe + 1) == is_leap_year(yoe + 1),
{
    lemma_div_shift(yoe, 100 * era, 4);
    lemma_div_shift(yoe, 4 * era, 100);
    lemma_div_shift(yoe, era, 400);
    lemma_div_shift(yoe + 1, 100 * era, 4);
    lemma_div_shift(yoe + 1, 4 * era, 100);
    lemma_div_shift(yoe + 1, era, 400);
    assert(yoe / 400 == 0);
}

/// The day number of a date, in terms of its era, its year of the era and its March-based
/// day of the year.
proof fn lemma_days_from_civil_by_era(y: int, m: int, d: int)
    requires
        1 <= m <= 12,
    ensures
        ({
            let yp = y - if m <= 2 {
                1int
            } else {
                0int
            };
            let era = yp / 400;
            let yoe = yp - era * 400;
            let mp = if m > 2 {
                m - 3
            } else {
                m + 9
            };
            days_from_civil(y, m, d) == era * 146097 + year_start(yoe) + month_start(mp) + d - 1
                - 719468
        }),
{
    let yp = y - if m <= 2 {
        1int
    } else {
        0int
    };
    let era = yp / 400;
    let yoe = yp - era * 400;
    lemma_leap_count_era(era, yoe);
    lemma_leap_count_step(yp);
    assert(leap_years_through(1969) == 477);
    if m > 2 {
        assert(days_before_month(y, m) == month_start(m - 3) + 59 + if is_leap_year(yp) {
            1int
        } else {
            0int
        });
    } else {
        assert(days_before_month(y, m) + 365 == month_start(m + 9) + 59);
    }
}

/// The day numbering agrees with the era-based computation: the date computed for day `z` is
/// a calendar date whose day number is `z`.
proof fn lemma_civil(z: int)
    ensures
        is_valid_date(civil(z).0, civil(z).1, civil(z).2),
        days_from_civil(civil(z).0, civil(z).1, civil(z).2) == z,
{
    let zz = z + 719468;
    let era = zz / 146097;
    let doe = zz - era * 146097;
    lemma_year_of_era(doe);
    let yoe = year_of_era(doe);
    let doy = doe - year_start(yoe);
    lemma_month_of_year(doy);
    let mp = month_of_year(doy);
    let d = doy - month_start(mp) + 1;
    let (y, m, dd) = civil(z);
    assert(dd == d);
    lemma_leap_count_era(era, yoe);
    if mp == 11 {
        assert(m == 2);
        assert(y == 400 * era + yoe + 1);
        assert(month_start(11) == 337);
        if d == 29 {
            assert(doy == 365);
            assert(is_leap_year(yoe + 1));
        }
        assert(d <= days_in_month(y, m));
    } else {
        lemma_month_starts();
        assert(d <= days_in_month(y, m));
    }
    lemma_days_from_civil_by_era(y, m, d);
    let yp = y - if m <= 2 {
        1int
    } else {
        0int
    };
    assert(yp == 400 * era + yoe);
    assert(yp / 400 == era);
}

/// Running the era-based computation on the day number of a date gives that date back.
proof fn lemma_civil_of_days(y: int, m: int, d: int)
    requires
        is_valid_date(y, m, d),
    ensures
        civil(days_from_civil(y, m, d)) == (y, m, d),
{
    let yp = y - if m <= 2 {
        1int
    } else {
        0int
    };
    let era = yp / 400;
    let yoe = yp - era * 400;
    let mp = if m > 2 {
        m - 3
    } else {
        m + 9
    };
    lemma_days_from_civil_by_era(y, m, d);
    lemma_leap_count_era(era, yoe);
    let doy = month_start(mp) + d - 1;
    lemma_month_starts();
    assert(1 <= d <= month_start(mp + 1) - month_start(mp));
    lemma_month_of_year_exact(mp, d);
    let c = yoe / 100;
    let q = (yoe % 100) / 4;
    let r = yoe % 4;
    assert(yoe == 100 * c + 4 * q + r);
    lemma_year_split(c, q, r);
    assert(doy < era_year_len(yoe));
    lemma_year_of_era_exact(c, q, r, doy);
    let doe = year_start(yoe) + doy;
    assert(0 <= doe < 146097);
    let z = days_from_civil(y, m, d);
    assert(z + 719468 == era * 146097 + doe);
    assert((z + 719468) / 146097 == era);
}

/// Distinct dates have distinct day numbers.
pub proof fn lemma_days_from_civil_injective(y1: int, m1: int, d1: int, y2: int, m2: int, d2: int)
    requires
        is_valid_date(y1, m1, d1),
        is_valid_date(y2, m2, d2),
        days_from_civil(y1, m1, d1) == days_from_civil(y2, m2, d2),
    ensures
        y1 == y2 && m1 == m2 && d1 == d2,
{
    lemma_civil_of_days(y1, m1, d1);
    lemma_civil_of_days(y2, m2, d2);
}

/// Every day number belongs to exactly one date, and `date_of_day` is that date.
pub proof fn lemma_date_of_day(z: int)
    ensures
        is_valid_date(date_of_day(z).0, date_of_day(z).1, date_of_day(z).2),
        days_from_civil(date_of_day(z).0, date_of_day(z).1, date_of_day(z).2) == z,
        forall|y: int, m: int, d: int|
            is_valid_date(y, m, d) && days_from_civil(y, m, d) == z ==> date_of_day(z) == (y, m, d),
{
    lemma_civil(z);
    let w = civil(z);
    assert(is_valid_date(w.0, w.1, w.2) && days_from_civil(w.0, w.1, w.2) == z);
    let t = date_of_day(z);
    assert forall|y: int, m: int, d: int|
        is_valid_date(y, m, d) && days_from_civil(y, m, d) == z implies t == (y, m, d) by {
        lemma_days_from_civil_injective(t.0, t.1, t.2, y, m, d);
    }
}

/// A day number that is not negative falls in 1970 or later.
pub proof fn lemma_year_of_nonnegative_day(y: int, m: int, d: int)
    requires
        is_valid_date(y, m, d),
        days_from_civil(y, m, d) >= 0,
    ensures
        y >= 1970,
{
    if y <= 1969 {
        assert(leap_years_through(1969) == 477);
        assert(days_before_month(y, m) + d - 1 <= 365);
        if y == 1969 {
            assert(leap_years_through(1968) == 477);
            assert(!is_leap_year(1969));
            assert(days_before_month(y, m) + d - 1 <= 364);
        } else {
            let n = y - 1;
            assert(4 * (n / 4) <= n);
            assert(100 * (n / 100) > n - 100);
            assert(400 * (n / 400) <= n);
            assert(400 * leap_years_through(n) <= 97 * n + 400);
        }
    }
}

/// A day number up to that of 9999-12-31 falls in year 9999 or earlier.
pub proof fn lemma_year_of_day_at_most_9999(y: int, m: int, d: int)
    requires
        is_valid_date(y, m, d),
        days_from_civil(y, m, d) <= 2932896,
    ensures
        y <= 9999,
{
    if y >= 10000 {
        assert(leap_years_through(1969) == 477);
        assert(days_before_month(y, m) + d - 1 >= 0);
        if y == 10000 {
            assert(leap_years_through(9999) == 2424);
        } else {
            let n = y - 1;
            assert(4 * (n / 4) > n - 4);
            assert(100 * (n / 100) <= n);
            assert(400 * (n / 400) > n - 400);
            assert(400 * leap_years_through(n) >= 97 * n - 800);
        }
    }
}

/// The day after `(y, m, d)`.
pub open spec fn next_date(y: int, m: int, d: int) -> (int, int, int) {
    if d < days_in_month(y, m) {
        (y, m, d + 1)
    } else if m < 12 {
        (y, m + 1, 1)
    } else {
        (y + 1, 1, 1)
    }
}

/// The day after a date is a date, and its day number is one more.
pub proof fn lemma_next_date(y: int, m: int, d: int)
    requires
        is_valid_date(y, m, d),
    ensures
        is_valid_date(next_date(y, m, d).0, next_date(y, m, d).1, next_date(y, m, d).2),
        days_from_civil(next_date(y, m, d).0, next_date(y, m, d).1, next_date(y, m, d).2)
            == days_from_civil(y, m, d) + 1,
{
    if d == days_in_month(y, m) && m == 12 {
        lemma_leap_count_step(y);
    }
}

/// Consecutive day numbers name consecutive dates.
pub proof fn lemma_date_of_next_day(z: int)
    ensures
        date_of_day(z + 1) == next_date(date_of_day(z).0, date_of_day(z).1, date_of_day(z).2),
{
    lemma_date_of_day(z);
    lemma_date_of_day(z + 1);
    let t = date_of_day(z);
    lemma_next_date(t.0, t.1, t.2);
    let n = next_date(t.0, t.1, t.2);
    assert(is_valid_date(n.0, n.1, n.2) && days_from_civil(n.0, n.1, n.2) == z + 1);
}

proof fn lemma_days_before_year_monotone(a: int, b: int)
    requires
        a <= b,
    ensures
        days_before_year(a) <= days_before_year(b),
    decreases b - a,
{
    if a < b {
        lemma_leap_count_step(b - 1);
        assert(days_before_year(b) == days_before_year(b - 1) + 365 + if is_leap_year(b - 1) {
            1int
        } else {
            0int
        });
        lemma_days_before_year_monotone(a, b - 1);
    }
}

proof fn lemma_month_ends(y: int, m: int)
    requires
        1 <= m <= 12,
    ensures
        m < 12 ==> days_before_month(y, m) + days_in_month(y, m) == days_before_month(y, m + 1),
        m == 12 ==> days_before_month(y, m) + days_in_month(y, m) == 365 + if is_leap_year(y) {
            1int
        } else {
            0int
        },
{
}

proof fn lemma_days_before_month_monotone(y: int, a: int, b: int)
    requires
        1 <= a <= b <= 12,
    ensures
        days_before_month(y, a) <= days_before_month(y, b),
    decreases b - a,
{
    if a < b {
        lemma_month_ends(y, b - 1);
        lemma_days_before_month_monotone(y, a, b - 1);
    }
}

/// Dates in calendar order have increasing day numbers.
pub proof fn lemma_days_from_civil_monotone(y1: int, m1: int, d1: int, y2: int, m2: int, d2: int)
    requires
        is_valid_date(y1, m1, d1),
        is_valid_date(y2, m2, d2),
        y1 < y2 || (y1 == y2 && (m1 < m2 || (m1 == m2 && d1 < d2))),
    ensures
        days_from_civil(y1, m1, d1) < days_from_civil(y2, m2, d2),
{
    lemma_month_ends(y1, m1);
    if y1 < y2 {
        lemma_leap_count_step(y1);
        lemma_days_before_year_monotone(y1 + 1, y2);
        if m1 < 12 {
            lemma_days_before_month_monotone(y1, m1 + 1, 12);
            lemma_month_ends(y1, 12);
        }
    } else if m1 < m2 {
        lemma_days_before_month_monotone(y1, m1 + 1, m2);
    }
}

/// The calendar date `z` days after 1970-01-01, as `(year, month, day)`.
pub fn civil_from_days(z: i64) -> (r: (i64, u32, u32))
    requires
        z <= i64::MAX - 719_468,
    ensures
        (r.0 as int, r.1 as int, r.2 as int) == date_of_day(z as int),
{
    let zz = z + 719_468;
    let era = (if zz >= 0 {
        zz
    } else {
        zz - 146_096
    }) / 146_097;
    assert(era == (zz as int) / 146097);
    let doe = zz - era * 146_097;
    proof {
        lemma_year_of_era(doe as int);
    }
    let yoe = (doe - doe / 1460 + doe / 36_524 - doe / 146_096) / 365;
    assert(yoe == year_of_era(doe as int));
    let year = yoe + era * 400;
    let doy = doe - (365 * yoe + yoe / 4 - yoe / 100);
    assert(doy == doe - year_start(yoe as int));
    proof {
        lemma_month_of_year(doy as int);
    }
    let mp = (5 * doy + 2) / 153;
    let day = (doy - (153 * mp + 2) / 5 + 1) as u32;
    let month = (if mp < 10 {
        mp + 3
    } else {
        mp - 9
    }) as u32;
    proof {
        lemma_civil(z as int);
        lemma_date_of_day(z as int);
    }
    (if month <= 2 {
        year + 1
    } else {
        year
    }, month, day)
}

} // verus!
