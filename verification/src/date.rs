//! Minimal UTC date <-> epoch conversion (Howard Hinnant's civil calendar
//! algorithms).

use vstd::prelude::*;

use crate::text::{decimal_padded, push_char, push_i64_padded};

verus! {

/// Rust's `/` on integers: division rounding toward zero (for `b > 0`).
pub open spec fn trunc_div(a: int, b: int) -> int {
    if a >= 0 {
        a / b
    } else {
        -((-a) / b)
    }
}

/// Rust's `%` on integers: the remainder of [`trunc_div`].
pub open spec fn trunc_rem(a: int, b: int) -> int {
    a - trunc_div(a, b) * b
}

/// Whether `v` fits an `i64`.
pub open spec fn fits_i64(v: int) -> bool {
    i64::MIN <= v <= i64::MAX
}

/// The intermediate values of `days_from_civil`: shifted year, era, year
/// of era, month from March, day of year, day of era, and the result.
pub open spec fn civil_steps(y: int, m: int, d: int) -> (int, int, int, int, int, int, int) {
    let y1 = if m <= 2 {
        y - 1
    } else {
        y
    };
    let era = y1 / 400;
    let yoe = y1 - era * 400;
    let mp = trunc_rem(m + 9, 12);
    let doy = trunc_div(153 * mp + 2, 5) + d - 1;
    let doe = yoe * 365 + yoe / 4 - yoe / 100 + doy;
    (y1, era, yoe, mp, doy, doe, era * 146_097 + doe - 719_468)
}

/// Days since the Unix epoch for a proleptic Gregorian date.
pub open spec fn days_from_civil_spec(y: int, m: int, d: int) -> int {
    civil_steps(y, m, d).6
}

/// Every step of `days_from_civil` stays within `i64`.
pub open spec fn civil_fits(y: int, m: int, d: int) -> bool {
    let (y1, era, yoe, mp, doy, doe, r) = civil_steps(y, m, d);
    &&& fits_i64(y1)
    &&& fits_i64(m + 9)
    &&& fits_i64(153 * mp + 2)
    &&& fits_i64(trunc_div(153 * mp + 2, 5) + d)
    &&& fits_i64(doy)
    &&& fits_i64(doe)
    &&& fits_i64(era * 146_097)
    &&& fits_i64(era * 146_097 + doe)
    &&& fits_i64(r)
}

/// Floor division for a positive divisor (`div_euclid`).
fn floor_div(a: i64, b: i64) -> (r: i64)
    requires
        b >= 2,
    ensures
        r == a as int / b as int,
{
    let q = a / b;
    let rem = a % b;
    assert(a >= 0 ==> q == a as int / b as int);
    assert(a < 0 ==> q == -((-a) as int / b as int));
    assert(a >= 0 ==> rem == a as int % b as int);
    assert(a < 0 ==> rem == -((-a) as int % b as int));
    assert(a == q * b + rem && -b < rem < b) by (nonlinear_arith)
        requires
            a >= 0 ==> q == a as int / b as int,
            a < 0 ==> q == -((-a) as int / b as int),
            a >= 0 ==> rem == a as int % b as int,
            a < 0 ==> rem == -((-a) as int % b as int),
            b >= 2,
    ;
    assert(q >= i64::MIN / 2) by (nonlinear_arith)
        requires
            a >= 0 ==> q == a as int / b as int,
            a < 0 ==> q == -((-a) as int / b as int),
            b >= 2,
            i64::MIN <= a,
    ;
    if rem < 0 {
        proof {
            assert(a as int / b as int == q - 1) by (nonlinear_arith)
                requires
                    a == q * b + rem,
                    -b < rem < 0,
                    b > 0,
            ;
        }
        q - 1
    } else {
        proof {
            assert(a as int / b as int == q) by (nonlinear_arith)
                requires
                    a == q * b + rem,
                    0 <= rem < b,
                    b > 0,
            ;
        }
        q
    }
}

/// Days since the Unix epoch for a proleptic Gregorian date.
pub fn days_from_civil(y: i64, m: i64, d: i64) -> (r: i64)
    requires
        civil_fits(y as int, m as int, d as int),
    ensures
        r == days_from_civil_spec(y as int, m as int, d as int),
{
    let y = if m <= 2 {
        y - 1
    } else {
        y
    };
    let era = floor_div(y, 400);
    proof {
        assert(era * 400 <= y < era * 400 + 400) by (nonlinear_arith)
            requires
                era == y as int / 400,
        ;
    }
    let yoe = y - era * 400;  // [0, 399]
    let mp = (m + 9) % 12;  // Mar=0 .. Feb=11
    let doy = (153 * mp + 2) / 5 + d - 1;
    let doe = yoe * 365 + yoe / 4 - yoe / 100 + doy;
    era * 146_097 + doe - 719_468
}

/// Epoch seconds for `YYYY-MM-DD HH:MM` interpreted as UTC.
pub open spec fn epoch_spec(year: int, month: int, day: int, hour: int, minute: int) -> int {
    days_from_civil_spec(year, month, day) * 86_400 + hour * 3_600 + minute * 60
}

/// Every step of `epoch_from_date_time` stays within `i64`.
pub open spec fn epoch_fits(year: int, month: int, day: int, hour: int, minute: int) -> bool {
    let days = days_from_civil_spec(year, month, day);
    &&& civil_fits(year, month, day)
    &&& fits_i64(days * 86_400)
    &&& fits_i64(hour * 3_600)
    &&& fits_i64(minute * 60)
    &&& fits_i64(days * 86_400 + hour * 3_600)
    &&& fits_i64(epoch_spec(year, month, day, hour, minute))
}

/// Epoch seconds for `YYYY-MM-DD HH:MM` interpreted as UTC.
pub fn epoch_from_date_time(year: i64, month: i64, day: i64, hour: i64, minute: i64) -> (r: i64)
    requires
        epoch_fits(year as int, month as int, day as int, hour as int, minute as int),
    ensures
        r == epoch_spec(year as int, month as int, day as int, hour as int, minute as int),
{
    days_from_civil(year, month, day) * 86_400 + hour * 3_600 + minute * 60
}

/// `(year, month, day)` for an epoch-second timestamp, UTC.
pub open spec fn civil_from_epoch_spec(epoch: int) -> (int, int, int) {
    let z = epoch / 86_400 + 719_468;
    let era = z / 146_097;
    let doe = z - era * 146_097;
    let yoe = (doe - doe / 1460 + doe / 36_524 - doe / 146_096) / 365;
    let y = yoe + era * 400;
    let doy = doe - (365 * yoe + yoe / 4 - yoe / 100);
    let mp = (5 * doy + 2) / 153;
    let d = doy - (153 * mp + 2) / 5 + 1;
    let m = if mp < 10 {
        mp + 3
    } else {
        mp - 9
    };
    (
        if m <= 2 {
            y + 1
        } else {
            y
        },
        m,
        d,
    )
}

/// `(year, month, day)` for the given epoch-second timestamp, UTC.
pub fn civil_from_epoch(epoch: i64) -> (r: (i64, i64, i64))
    ensures
        (r.0 as int, r.1 as int, r.2 as int) == civil_from_epoch_spec(epoch as int),
{
    let days = floor_div(epoch, 86_400);
    proof {
        assert(-106_751_991_167_301 <= days <= 106_751_991_167_300) by (nonlinear_arith)
            requires
                days == epoch as int / 86_400,
                i64::MIN <= epoch <= i64::MAX,
        ;
    }
    let z = days + 719_468;
    let era = floor_div(z, 146_097);
    proof {
        assert(era * 146_097 <= z < era * 146_097 + 146_097) by (nonlinear_arith)
            requires
                era == z as int / 146_097,
        ;
        assert(-800_000_000_000 <= era <= 800_000_000_000) by (nonlinear_arith)
            requires
                era == z as int / 146_097,
                -106_751_991_167_301 + 719_468 <= z <= 106_751_991_167_300 + 719_468,
        ;
    }
    let doe = z - era * 146_097;  // [0, 146096]
    let yoe = (doe - doe / 1460 + doe / 36_524 - doe / 146_096) / 365;
    proof {
        assert(0 <= yoe <= 400) by (nonlinear_arith)
            requires
                yoe == (doe - doe / 1460 + doe / 36_524 - doe / 146_096) / 365,
                0 <= doe < 146_097,
        ;
    }
    let y = yoe + era * 400;
    let doy = doe - (365 * yoe + yoe / 4 - yoe / 100);
    proof {
        assert(-200_000 <= doy <= 200_000) by (nonlinear_arith)
            requires
                doy == doe - (365 * yoe + yoe / 4 - yoe / 100),
                0 <= doe < 146_097,
                0 <= yoe <= 400,
        ;
    }
    let mp = (5 * doy + 2) / 153;
    proof {
        assert(-200_000 <= mp <= 200_000) by (nonlinear_arith)
            requires
                -200_000 <= doy <= 200_000,
                mp == trunc_div(5 * doy + 2, 153),
        ;
    }
    let d = doy - (153 * mp + 2) / 5 + 1;
    let m = if mp < 10 {
        mp + 3
    } else {
        mp - 9
    };
    let r = (
        if m <= 2 {
            y + 1
        } else {
            y
        },
        m,
        d,
    );
    proof {
        assert(doy >= 0) by (nonlinear_arith)
            requires
                doy == doe - (365 * yoe + yoe / 4 - yoe / 100),
                yoe == (doe - doe / 1460 + doe / 36_524 - doe / 146_096) / 365,
                0 <= doe < 146_097,
        ;
    }
    r
}

/// `YYYY-MM-DD` for an epoch-second timestamp (UTC), zero-padded.
pub open spec fn format_date_spec(epoch: int) -> Seq<char> {
    let (y, m, d) = civil_from_epoch_spec(epoch);
    decimal_padded(y, 4) + seq!['-'] + decimal_padded(m, 2) + seq!['-'] + decimal_padded(d, 2)
}

/// Format an epoch-second timestamp as `YYYY-MM-DD` (UTC).
pub fn format_date(epoch: i64) -> (r: String)
    ensures
        r@ == format_date_spec(epoch as int),
{
    let (y, m, d) = civil_from_epoch(epoch);
    let mut s = String::new();
    push_i64_padded(&mut s, y, 4);
    push_char(&mut s, '-');
    push_i64_padded(&mut s, m, 2);
    push_char(&mut s, '-');
    push_i64_padded(&mut s, d, 2);
    s
}


/// Whether `y` is a leap year of the proleptic Gregorian calendar.
pub open spec fn is_leap(y: int) -> bool {
    y % 4 == 0 && (y % 100 != 0 || y % 400 == 0)
}

/// Days in month `m` (1 to 12) of year `y`.
pub open spec fn days_in_month(y: int, m: int) -> int {
    if m == 2 {
        if is_leap(y) {
            29
        } else {
            28
        }
    } else if m == 4 || m == 6 || m == 9 || m == 11 {
        30
    } else {
        31
    }
}

/// A real calendar date with a time of day.
pub open spec fn valid_date_time(year: int, month: int, day: int, hour: int, minute: int) -> bool {
    &&& 1 <= month <= 12
    &&& 1 <= day <= days_in_month(year, month)
    &&& 0 <= hour < 24
    &&& 0 <= minute < 60
}

/// Days of an era before its year `yoe` (years counted from March).
spec fn era_days_before(yoe: int) -> int {
    365 * yoe + yoe / 4 - yoe / 100
}

proof fn lemma_year_of_era(yoe: int, doy: int)
    requires
        0 <= yoe < 400,
        0 <= doy,
        doy < era_days_before(yoe + 1) - era_days_before(yoe) + (if yoe == 399 {
            1int
        } else {
            0int
        }),
    ensures
        ({
            let doe = era_days_before(yoe) + doy;
            (doe - doe / 1460 + doe / 36_524 - doe / 146_096) / 365 == yoe
        }),
{
}

/// The length of March-based year `yoe` of an era starting at a multiple
/// of 400: 366 days when the February at its end is a leap one.
proof fn lemma_era_year_length(y1: int, era: int, yoe: int)
    requires
        y1 == era * 400 + yoe,
        0 <= yoe < 400,
    ensures
        era_days_before(yoe + 1) - era_days_before(yoe) + (if yoe == 399 {
            1int
        } else {
            0int
        }) == if is_leap(y1 + 1) {
            366int
        } else {
            365int
        },
{
    let k = yoe + 1;
    assert(k / 4 - yoe / 4 == if k % 4 == 0 {
        1int
    } else {
        0int
    });
    assert(k / 100 - yoe / 100 == if k % 100 == 0 {
        1int
    } else {
        0int
    });
    assert(y1 + 1 == 4 * (era * 100) + k);
    vstd::arithmetic::div_mod::lemma_mod_multiples_vanish(era * 100, k, 4);
    assert(y1 + 1 == 100 * (era * 4) + k);
    vstd::arithmetic::div_mod::lemma_mod_multiples_vanish(era * 4, k, 100);
    assert(y1 + 1 == 400 * era + k);
    vstd::arithmetic::div_mod::lemma_mod_multiples_vanish(era, k, 400);
    assert((k % 400 == 0) == (yoe == 399));
}

/// What a timestamp shows is the date it was read from: a valid date and
/// time of day, turned into epoch seconds and back into a calendar date,
/// gives the same year, month and day.
pub proof fn lemma_date_round_trip(year: int, month: int, day: int, hour: int, minute: int)
    requires
        valid_date_time(year, month, day, hour, minute),
    ensures
        civil_from_epoch_spec(epoch_spec(year, month, day, hour, minute)) == (year, month, day),
{
    let (y1, era, yoe, mp, doy, doe, days) = civil_steps(year, month, day);
    assert(0 <= mp < 12);
    assert(mp == (month + 9) % 12);
    let cum = (153 * mp + 2) / 5;
    assert(trunc_div(153 * mp + 2, 5) == cum);
    assert(doy == cum + day - 1);
    assert(0 <= yoe < 400);
    assert(y1 == era * 400 + yoe);
    lemma_era_year_length(y1, era, yoe);
    // The day lies inside its month, so inside its March-based year.
    assert(cum <= doy < (153 * (mp + 1) + 2) / 5);
    assert(doy < if is_leap(y1 + 1) {
        366int
    } else {
        365int
    });
    lemma_year_of_era(yoe, doy);
    assert(doe == era_days_before(yoe) + doy);
    assert(0 <= doe < 146_097);
    let e = epoch_spec(year, month, day, hour, minute);
    let secs = hour * 3_600 + minute * 60;
    assert(0 <= secs < 86_400);
    assert(e == days * 86_400 + secs);
    assert(e / 86_400 == days);
    let z = days + 719_468;
    assert(z == era * 146_097 + doe);
    assert(z / 146_097 == era);
    assert(z - era * 146_097 == doe);
    assert((5 * doy + 2) / 153 == mp);
}
} // verus!
