//! Calendar dates as day numbers, wall-clock instants at minute precision, and
//! the chrono calls that name and write them.

use chrono::Datelike;
use vstd::arithmetic::div_mod::{
    lemma_fundamental_div_mod_converse_div, lemma_fundamental_div_mod_converse_mod,
};
use vstd::prelude::*;

verus! {

/// Largest distance from day zero that a `Date` of this library may have.
/// It lies well inside the range of calendar dates that chrono represents
/// (years -262143 to 262142).
pub const DAY_LIMIT: i32 = 95_000_000;

/// Minutes in one day.
pub const MINUTES_PER_DAY: i64 = 1440;

/// A calendar date, held as its day number in the proleptic Gregorian
/// calendar: day 1 is 0001-01-01, which was a Monday.
#[derive(Clone, Copy, Debug, PartialEq, Eq, Structural, PartialOrd, Ord, Hash)]
pub struct Date {
    pub days: i32,
}

/// Position of a day number in its week, Monday being 0 and Sunday 6.
pub open spec fn weekday_of(days: int) -> int {
    (days - 1) % 7
}

/// The instant `e` minutes after the start of day zero.
pub open spec fn instant_at(e: int) -> DateTime {
    DateTime {
        date: Date { days: (e / 1440) as i32 },
        hour: ((e % 1440) / 60) as u32,
        minute: (e % 60) as u32,
    }
}

/// Whether the instant `e` minutes after the start of day zero has a date
/// in the range of this library.
pub open spec fn fits_instant(e: int) -> bool {
    -DAY_LIMIT <= e / 1440 <= DAY_LIMIT
}

/// A well-formed instant is the one at its own minute index.
pub proof fn lemma_instant_at(t: DateTime)
    requires
        t.wf(),
    ensures
        instant_at(t.minute_index()) == t,
{
    let e = t.minute_index();
    let a = t.hour * 60 + t.minute;
    assert(0 <= a < 1440) by (nonlinear_arith)
        requires a == t.hour * 60 + t.minute, t.hour < 24, t.minute < 60;
    lemma_fundamental_div_mod_converse_div(e, 1440, t.date.days as int, a);
    lemma_fundamental_div_mod_converse_mod(e, 1440, t.date.days as int, a);
    lemma_fundamental_div_mod_converse_div(a, 60, t.hour as int, t.minute as int);
    lemma_fundamental_div_mod_converse_mod(a, 60, t.hour as int, t.minute as int);
    assert(e == (t.date.days * 24 + t.hour) * 60 + t.minute) by (nonlinear_arith)
        requires e == t.date.days * 1440 + t.hour * 60 + t.minute;
    lemma_fundamental_div_mod_converse_mod(e, 60, t.date.days * 24 + t.hour, t.minute as int);
}

impl Date {
    pub open spec fn wf(self) -> bool {
        -DAY_LIMIT <= self.days <= DAY_LIMIT
    }

    pub open spec fn is_monday(self) -> bool {
        weekday_of(self.days as int) == 0
    }

    /// Zero-based position of the date in its week, counted from Monday.
    pub fn num_days_from_monday(&self) -> (r: u32)
        ensures
            r == weekday_of(self.days as int),
            r < 7,
    {
        // shift by a multiple of 7 so that the remainder is taken of a non-negative value
        let shifted: i64 = self.days as i64 - 1 + 7 * 400_000_000;
        let r = shifted % 7;
        assert((self.days as int - 1 + 7 * 400_000_000) % 7 == (self.days as int - 1) % 7)
            by (nonlinear_arith);
        r as u32
    }

    /// The date `n` days later (earlier for a negative `n`), where that date
    /// stays within the range of this library.
    pub fn plus_days(&self, n: i64) -> (r: Option<Date>)
        ensures
            match r {
                Some(d) => d.days == self.days + n && d.wf(),
                None => !(-DAY_LIMIT <= self.days + n <= DAY_LIMIT),
            },
    {
        if n < -5_000_000_000 || n > 5_000_000_000 {
            return None;
        }
        let t: i64 = self.days as i64 + n;
        if t < -(DAY_LIMIT as i64) || t > DAY_LIMIT as i64 {
            None
        } else {
            Some(Date { days: t as i32 })
        }
    }
}


/// The day number that chrono gives to a year, month and day, if that date exists.
pub uninterp spec fn day_number_of(year: int, month: int, day: int) -> Option<int>;

/// The date and time written as `YYYYMMDDTHHMMSS` by chrono's formatter.
pub uninterp spec fn compact_stamp_of(days: int, hour: int, minute: int) -> Seq<char>;

/// The date written as `YYYY-MM-DD` by chrono's `Display` of `NaiveDate`.
pub uninterp spec fn iso_date_of(days: int) -> Seq<char>;

/// Relies on chrono's `NaiveDate::from_ymd_opt`, read as a day number through
/// `Datelike::num_days_from_ce`.
#[verifier::external_body]
fn chrono_day_number(year: i32, month: u32, day: u32) -> (r: Option<i32>)
    ensures
        match r {
            Some(n) => day_number_of(year as int, month as int, day as int) == Some(n as int),
            None => day_number_of(year as int, month as int, day as int) is None,
        },
{
    chrono::NaiveDate::from_ymd_opt(year, month, day).map(|d| d.num_days_from_ce())
}

/// Relies on chrono's `Local::now`: the local calendar date of this moment, as a
/// day number. Nothing is known of it beforehand.
#[verifier::external_body]
fn chrono_local_today() -> (r: i32) {
    chrono::Local::now().date_naive().num_days_from_ce()
}

/// Relies on chrono's `format` with the pattern `%Y%m%dT%H%M%S`. The date
/// and time exist in chrono for every argument admitted here.
#[verifier::external_body]
fn chrono_compact_stamp(days: i32, hour: u32, minute: u32) -> (r: String)
    requires
        -DAY_LIMIT <= days <= DAY_LIMIT,
        hour < 24,
        minute < 60,
    ensures
        r@ == compact_stamp_of(days as int, hour as int, minute as int),
{
    let date = chrono::NaiveDate::from_num_days_from_ce_opt(days).unwrap();
    date.and_hms_opt(hour, minute, 0).unwrap().format("%Y%m%dT%H%M%S").to_string()
}

/// Relies on chrono's `Display` of `NaiveDate` (`YYYY-MM-DD`). The date exists
/// in chrono for every argument admitted here.
#[verifier::external_body]
fn chrono_iso_date(days: i32) -> (r: String)
    requires
        -DAY_LIMIT <= days <= DAY_LIMIT,
    ensures
        r@ == iso_date_of(days as int),
{
    chrono::NaiveDate::from_num_days_from_ce_opt(days).unwrap().to_string()
}

impl Date {
    /// The date with the given year, month and day, if it exists and lies in
    /// the range of this library.
    pub fn from_ymd(year: i32, month: u32, day: u32) -> (r: Option<Date>)
        ensures
            match day_number_of(year as int, month as int, day as int) {
                Some(n) => if -DAY_LIMIT <= n <= DAY_LIMIT {
                    r == Some(Date { days: n as i32 })
                } else {
                    r is None
                },
                None => r is None,
            },
    {
        match chrono_day_number(year, month, day) {
            Some(n) => if -DAY_LIMIT <= n && n <= DAY_LIMIT {
                Some(Date { days: n })
            } else {
                None
            },
            None => None,
        }
    }

    /// Today's date on the local clock, where it lies in the range of this library.
    pub fn today() -> (r: Option<Date>)
        ensures
            r matches Some(d) ==> d.wf(),
    {
        let n = chrono_local_today();
        if -DAY_LIMIT <= n && n <= DAY_LIMIT {
            Some(Date { days: n })
        } else {
            None
        }
    }

    /// The date as `YYYY-MM-DD`.
    pub fn to_iso_string(&self) -> (r: String)
        requires
            self.wf(),
        ensures
            r@ == iso_date_of(self.days as int),
    {
        chrono_iso_date(self.days)
    }
}

/// A local wall-clock instant at minute precision (seconds are always zero).
#[derive(Clone, Copy, Debug, PartialEq, Eq, Structural, Hash)]
pub struct DateTime {
    pub date: Date,
    pub hour: u32,
    pub minute: u32,
}

impl DateTime {
    pub open spec fn wf(self) -> bool {
        self.date.wf() && self.hour < 24 && self.minute < 60
    }

    /// Minutes since the start of day zero; instants compare by this number.
    pub open spec fn minute_index(self) -> int {
        self.date.days * 1440 + self.hour * 60 + self.minute
    }

    /// The instant at `hour:minute` on `date`, if that is a time of day.
    pub fn at(date: Date, hour: u32, minute: u32) -> (r: Option<DateTime>)
        ensures
            r == (if hour < 24 && minute < 60 {
                Some(DateTime { date, hour, minute })
            } else {
                None
            }),
    {
        if hour < 24 && minute < 60 {
            Some(DateTime { date, hour, minute })
        } else {
            None
        }
    }

    /// The value by which instants are ordered.
    pub fn sort_key(&self) -> (r: i64)
        requires
            self.wf(),
        ensures
            r == self.minute_index(),
    {
        self.date.days as i64 * MINUTES_PER_DAY + self.hour as i64 * 60 + self.minute as i64
    }

    /// The instant `n` minutes later, where its date stays within the range of
    /// this library.
    pub fn plus_minutes(&self, n: u32) -> (r: Option<DateTime>)
        requires
            self.wf(),
        ensures
            match r {
                Some(t) => t == instant_at(self.minute_index() + n) && t.wf()
                    && t.minute_index() == self.minute_index() + n,
                None => !fits_instant(self.minute_index() + n),
            },
    {
        let shift: i64 = 100_000_000;
        let total: i64 = self.sort_key() + n as i64 + shift * MINUTES_PER_DAY;
        let q: i64 = total / MINUTES_PER_DAY;
        let rem: i64 = total % MINUTES_PER_DAY;
        let days: i64 = q - shift;
        let hour: i64 = rem / 60;
        let minute: i64 = rem % 60;
        let ghost e: int = self.minute_index() + n;
        proof {
            let tot = total as int;
            assert(tot == q * 1440 + rem && 0 <= rem < 1440) by (nonlinear_arith)
                requires q == tot / 1440, rem == tot % 1440, tot >= 0;
            assert(rem == hour * 60 + minute && 0 <= minute < 60 && 0 <= hour < 24)
                by (nonlinear_arith)
                requires hour == rem / 60, minute == rem % 60, 0 <= rem < 1440;
            assert(e == (q - shift) * 1440 + rem) by (nonlinear_arith)
                requires tot == q * 1440 + rem, tot == e + shift * 1440;
            lemma_fundamental_div_mod_converse_div(e, 1440, q - shift, rem as int);
        }
        if days < -(DAY_LIMIT as i64) || days > DAY_LIMIT as i64 {
            None
        } else {
            let r = DateTime { date: Date { days: days as i32 }, hour: hour as u32, minute: minute as u32 };
            assert(r.minute_index() == e) by (nonlinear_arith)
                requires r.date.days == q - shift, r.hour == hour, r.minute == minute,
                    e == (q - shift) * 1440 + rem, rem == hour * 60 + minute;
            proof {
                lemma_instant_at(r);
            }
            Some(r)
        }
    }

    /// The instant as `YYYYMMDDTHHMMSS`.
    pub fn to_compact_string(&self) -> (r: String)
        requires
            self.wf(),
        ensures
            r@ == compact_stamp_of(self.date.days as int, self.hour as int, self.minute as int),
    {
        chrono_compact_stamp(self.date.days, self.hour, self.minute)
    }
}

} // verus!
