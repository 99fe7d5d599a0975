//! Civil-calendar arithmetic over timestamps.
//!
//! A timestamp is a count of seconds since 1970-01-01 00:00:00 in a fixed
//! (UTC-equivalent) time reference. The spec-level calendar is defined by
//! a single recursive function, `civil_of`, that steps one day at a time
//! from the epoch; the executable conversion is proved equal to it.

use vstd::prelude::*;

verus! {

/// Day numbers are kept below this bound (about 243 years past the epoch).
pub const MAX_DAYS: u64 = 100_000;

/// Timestamps are kept below this bound (`MAX_DAYS` whole days).
pub const MAX_TS: u64 = 8_640_000_000;

/// A civil date: year, month (1..=12), day of month (1..=31).
#[derive(Clone, Copy, PartialEq, Eq, Structural, Debug)]
pub struct Date {
    pub year: u64,
    pub month: u64,
    pub day: u64,
}

pub open spec fn is_leap(y: int) -> bool {
    (y % 4 == 0 && y % 100 != 0) || y % 400 == 0
}

pub open spec fn days_in_month(y: int, m: int) -> int {
    if m == 2 {
        if is_leap(y) {
            29
        } else {
            28
        }
    } else if m == 4 || m == 6 || m == 9 || m == 11 {
        30
    } else {
        31
    }
}

pub open spec fn date_wf(d: Date) -> bool {
    &&& 1970 <= d.year
    &&& 1 <= d.month <= 12
    &&& 1 <= d.day <= days_in_month(d.year as int, d.month as int)
}

/// The day after `d`.
pub open spec fn date_succ(d: Date) -> Date {
    if (d.day as int) < days_in_month(d.year as int, d.month as int) {
        Date { year: d.year, month: d.month, day: (d.day + 1) as u64 }
    } else if d.month < 12 {
        Date { year: d.year, month: (d.month + 1) as u64, day: 1 }
    } else {
        Date { year: (d.year + 1) as u64, month: 1, day: 1 }
    }
}

/// The civil date of day number `n`: day 0 is 1970-01-01.
pub open spec fn civil_of(n: nat) -> Date
    decreases n,
{
    if n == 0 {
        Date { year: 1970, month: 1, day: 1 }
    } else {
        date_succ(civil_of((n - 1) as nat))
    }
}

pub proof fn lemma_civil_wf(n: nat)
    requires
        n <= MAX_DAYS,
    ensures
        date_wf(civil_of(n)),
        civil_of(n).year <= 1970 + n,
    decreases n,
{
    if n > 0 {
        lemma_civil_wf((n - 1) as nat);
    }
}

/// Seconds component of a timestamp.
pub open spec fn sec_of(t: int) -> int {
    t % 60
}

/// Minutes component of a timestamp.
pub open spec fn min_of(t: int) -> int {
    (t / 60) % 60
}

/// Hours component of a timestamp.
pub open spec fn hour_of(t: int) -> int {
    (t / 3600) % 24
}

/// Day number of a timestamp.
pub open spec fn days_of(t: int) -> int {
    t / 86400
}

/// Day of week of a timestamp: 0 is Sunday (day 0, 1970-01-01, was a Thursday).
pub open spec fn dow_of(t: int) -> int {
    (days_of(t) + 4) % 7
}

/// Civil date of a timestamp.
pub open spec fn date_of(t: int) -> Date
    recommends
        0 <= t,
{
    civil_of(days_of(t) as nat)
}

fn days_in_month_x(y: u64, m: u64) -> (r: u64)
    requires
        1 <= m <= 12,
    ensures
        r as int == days_in_month(y as int, m as int),
{
    if m == 2 {
        if (y % 4 == 0 && y % 100 != 0) || y % 400 == 0 {
            29
        } else {
            28
        }
    } else if m == 4 || m == 6 || m == 9 || m == 11 {
        30
    } else {
        31
    }
}

fn date_succ_x(d: Date) -> (r: Date)
    requires
        date_wf(d),
        d.year < 1_000_000,
    ensures
        r == date_succ(d),
{
    let dim = days_in_month_x(d.year, d.month);
    if d.day < dim {
        Date { year: d.year, month: d.month, day: d.day + 1 }
    } else if d.month < 12 {
        Date { year: d.year, month: d.month + 1, day: 1 }
    } else {
        Date { year: d.year + 1, month: 1, day: 1 }
    }
}

/// The civil date of day number `n`.
pub fn civil_from_days(n: u64) -> (r: Date)
    requires
        n < MAX_DAYS,
    ensures
        r == civil_of(n as nat),
        date_wf(r),
{
    let mut i: u64 = 0;
    let mut d = Date { year: 1970, month: 1, day: 1 };
    proof {
        lemma_civil_wf(0);
    }
    while i < n
        invariant
            i <= n,
            n < MAX_DAYS,
            d == civil_of(i as nat),
            date_wf(d),
            d.year <= 1970 + i,
        decreases n - i,
    {
        d = date_succ_x(d);
        i = i + 1;
        proof {
            lemma_civil_wf(i as nat);
        }
    }
    d
}

} // verus!
