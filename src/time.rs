use vstd::prelude::*;
use crate::error::BankError;
use chrono::{Datelike, Timelike};

verus! {

/// Earliest calendar year the date arithmetic supports.
pub const MIN_YEAR: i32 = -262143;

/// Latest calendar year the date arithmetic supports.
pub const MAX_YEAR: i32 = 262142;

/// Seconds in a day.
pub const SECS_PER_DAY: u32 = 86400;

/// A UTC instant with one-second resolution, held as a calendar date
/// (proleptic Gregorian) and the seconds elapsed since midnight.
#[derive(Clone, Copy, Debug, PartialEq, Eq, Structural)]
pub struct Timestamp {
    pub year: i32,
    pub month: u32,
    pub day: u32,
    pub secs: u32,
}

pub open spec fn is_leap_year(y: int) -> bool {
    (y % 4 == 0 && y % 100 != 0) || y % 400 == 0
}

pub open spec fn days_in_month(y: int, m: int) -> int {
    if m == 2 {
        if is_leap_year(y) { 29 } else { 28 }
    } else if m == 4 || m == 6 || m == 9 || m == 11 {
        30
    } else {
        31
    }
}

pub open spec fn min_int(a: int, b: int) -> int {
    if a <= b { a } else { b }
}

impl Timestamp {
    /// A valid calendar date and time of day within the supported range.
    pub open spec fn wf(self) -> bool {
        &&& MIN_YEAR <= self.year <= MAX_YEAR
        &&& 1 <= self.month <= 12
        &&& 1 <= self.day <= days_in_month(self.year as int, self.month as int)
        &&& self.secs < SECS_PER_DAY
    }

    /// Number of whole months from year 0, January, to this date's month.
    pub open spec fn month_index(self) -> int {
        self.year * 12 + self.month - 1
    }

    /// Chronological order: `self` is strictly earlier than `other`.
    pub open spec fn before(self, other: Timestamp) -> bool {
        if self.year != other.year {
            self.year < other.year
        } else if self.month != other.month {
            self.month < other.month
        } else if self.day != other.day {
            self.day < other.day
        } else {
            self.secs < other.secs
        }
    }

    /// `true` when `self` is strictly earlier than `other`.
    pub fn is_before(&self, other: &Timestamp) -> (r: bool)
        ensures
            r == self.before(*other),
    {
        if self.year != other.year {
            self.year < other.year
        } else if self.month != other.month {
            self.month < other.month
        } else if self.day != other.day {
            self.day < other.day
        } else {
            self.secs < other.secs
        }
    }
}

/// The date `n` calendar months after `t`, with the day of month clamped to
/// the length of the target month and the time of day kept; `None` when the
/// result leaves the supported range.
pub open spec fn months_later(t: Timestamp, n: nat) -> Option<Timestamp> {
    let k = t.month_index() + n;
    let y = k / 12;
    let m = k % 12 + 1;
    if n == 0 {
        Some(t)
    } else if n > i32::MAX || k > i32::MAX || y < MIN_YEAR || y > MAX_YEAR {
        None
    } else {
        Some(
            Timestamp {
                year: y as i32,
                month: m as u32,
                day: min_int(t.day as int, days_in_month(y, m)) as u32,
                secs: t.secs,
            },
        )
    }
}

/// `months_later` yields a well-formed date.
pub proof fn lemma_months_later_wf(t: Timestamp, n: nat)
    requires
        t.wf(),
    ensures
        months_later(t, n) matches Some(r) ==> r.wf() && r.month_index() == t.month_index() + n,
{
    let k = t.month_index() + n;
    let y = k / 12;
    let m = k % 12 + 1;
    assert(k == y * 12 + (m - 1));
    if n > 0 && !(n > i32::MAX || k > i32::MAX || y < MIN_YEAR || y > MAX_YEAR) {
        let r = months_later(t, n).unwrap();
        assert(r.year == y && r.month == m);
        assert(1 <= days_in_month(y, m));
    }
}

/// A date in an earlier month is earlier.
pub proof fn lemma_month_index_order(a: Timestamp, b: Timestamp)
    requires
        a.wf(),
        b.wf(),
        a.month_index() < b.month_index(),
    ensures
        a.before(b),
        !b.before(a),
{
}

/// `months_later` stays in range when the target month is not after the
/// month of some well-formed date `u`.
pub proof fn lemma_months_later_some(t: Timestamp, n: nat, u: Timestamp)
    requires
        t.wf(),
        u.wf(),
        t.month_index() + n <= u.month_index(),
    ensures
        months_later(t, n) is Some,
{
    let k = t.month_index() + n;
    assert(k / 12 <= u.year) by {
        assert(u.month_index() < (u.year + 1) * 12);
    }
    assert(k / 12 >= t.year) by {
        assert(k >= t.year * 12);
    }
}

/// Days from 1 January of year 1 to 1 January of year `y` (negative before).
pub open spec fn days_before_year(y: int) -> int {
    365 * (y - 1) + (y - 1) / 4 - (y - 1) / 100 + (y - 1) / 400
}

/// Days from 1 January of year `y` to the first day of month `m`.
pub open spec fn days_before_month(y: int, m: int) -> int {
    let base: int = if m == 1 {
        0
    } else if m == 2 {
        31
    } else if m == 3 {
        59
    } else if m == 4 {
        90
    } else if m == 5 {
        120
    } else if m == 6 {
        151
    } else if m == 7 {
        181
    } else if m == 8 {
        212
    } else if m == 9 {
        243
    } else if m == 10 {
        273
    } else if m == 11 {
        304
    } else {
        334
    };
    base + if m > 2 && is_leap_year(y) { 1int } else { 0int }
}

/// Seconds from 1 January of year 1, 00:00:00, to `t`.
pub open spec fn seconds_of(t: Timestamp) -> int {
    (days_before_year(t.year as int) + days_before_month(t.year as int, t.month as int) + t.day - 1) * 86400 + t.secs
}

/// The first second of the supported range.
pub open spec fn first_second() -> int {
    seconds_of(Timestamp { year: MIN_YEAR, month: 1, day: 1, secs: 0 })
}

/// The last second of the supported range.
pub open spec fn last_second() -> int {
    seconds_of(Timestamp { year: MAX_YEAR, month: 12, day: 31, secs: 86399 })
}

/// The instant `s` seconds after 1 January of year 1, when it is in range.
pub open spec fn from_seconds(s: int) -> Option<Timestamp> {
    if exists|x: Timestamp| x.wf() && seconds_of(x) == s {
        Some(choose|x: Timestamp| x.wf() && seconds_of(x) == s)
    } else {
        None
    }
}

proof fn lemma_year_step(y: int)
    ensures
        days_before_year(y + 1) == days_before_year(y) + 365 + if is_leap_year(y) { 1int } else { 0int },
{
    vstd::arithmetic::div_mod::lemma_fundamental_div_mod(y, 4);
    vstd::arithmetic::div_mod::lemma_fundamental_div_mod(y - 1, 4);
    vstd::arithmetic::div_mod::lemma_fundamental_div_mod(y, 100);
    vstd::arithmetic::div_mod::lemma_fundamental_div_mod(y - 1, 100);
    vstd::arithmetic::div_mod::lemma_fundamental_div_mod(y, 400);
    vstd::arithmetic::div_mod::lemma_fundamental_div_mod(y - 1, 400);
    vstd::arithmetic::div_mod::lemma_mod_bound(y, 4);
    vstd::arithmetic::div_mod::lemma_mod_bound(y - 1, 4);
    vstd::arithmetic::div_mod::lemma_mod_bound(y, 100);
    vstd::arithmetic::div_mod::lemma_mod_bound(y - 1, 100);
    vstd::arithmetic::div_mod::lemma_mod_bound(y, 400);
    vstd::arithmetic::div_mod::lemma_mod_bound(y - 1, 400);
}

proof fn lemma_years_order(y1: int, y2: int)
    requires
        y1 < y2,
    ensures
        days_before_year(y1) + 365 + (if is_leap_year(y1) { 1int } else { 0int }) <= days_before_year(y2),
    decreases y2 - y1,
{
    lemma_year_step(y1);
    if y1 + 1 < y2 {
        lemma_years_order(y1 + 1, y2);
    }
}

/// Days of `t`'s date since 1 January of its year.
proof fn lemma_day_in_year(t: Timestamp)
    requires
        t.wf(),
    ensures
        0 <= days_before_month(t.year as int, t.month as int) + t.day - 1 < 365 + if is_leap_year(
            t.year as int,
        ) { 1int } else { 0int },
{
}

proof fn lemma_month_order(y: int, m1: int, d1: int, m2: int)
    requires
        1 <= m1 < m2 <= 12,
        1 <= d1 <= days_in_month(y, m1),
    ensures
        days_before_month(y, m1) + d1 - 1 < days_before_month(y, m2),
{
}

/// Counting seconds preserves the order of instants.
pub proof fn lemma_seconds_order(a: Timestamp, b: Timestamp)
    requires
        a.wf(),
        b.wf(),
        a.before(b),
    ensures
        seconds_of(a) < seconds_of(b),
{
    let ya = a.year as int;
    let yb = b.year as int;
    lemma_day_in_year(a);
    lemma_day_in_year(b);
    if ya < yb {
        lemma_years_order(ya, yb);
    } else if a.month < b.month {
        lemma_month_order(ya, a.month as int, a.day as int, b.month as int);
    }
}

/// Different instants have different second counts.
pub proof fn lemma_seconds_injective(a: Timestamp, b: Timestamp)
    requires
        a.wf(),
        b.wf(),
        seconds_of(a) == seconds_of(b),
    ensures
        a == b,
{
    if a.before(b) {
        lemma_seconds_order(a, b);
    } else if b.before(a) {
        lemma_seconds_order(b, a);
    }
}

/// Every well-formed instant lies in the supported range of seconds.
pub proof fn lemma_seconds_range(t: Timestamp)
    requires
        t.wf(),
    ensures
        first_second() <= seconds_of(t) <= last_second(),
{
    let lo = Timestamp { year: MIN_YEAR, month: 1, day: 1, secs: 0 };
    let hi = Timestamp { year: MAX_YEAR, month: 12, day: 31, secs: 86399 };
    if lo.before(t) {
        lemma_seconds_order(lo, t);
    }
    if t.before(hi) {
        lemma_seconds_order(t, hi);
    }
}

/// `from_seconds` gives back the instant a second count was taken from.
pub proof fn lemma_from_seconds(t: Timestamp)
    requires
        t.wf(),
    ensures
        from_seconds(seconds_of(t)) == Some(t),
{
    let s = seconds_of(t);
    assert(t.wf() && seconds_of(t) == s);
    let x = choose|x: Timestamp| x.wf() && seconds_of(x) == s;
    lemma_seconds_injective(x, t);
}

/// Relies on chrono's `NaiveDate::from_ymd_opt`,
/// `NaiveTime::from_num_seconds_from_midnight_opt` (both accept every
/// well-formed `Timestamp`) and `NaiveDateTime::checked_add_months`: the month
/// moves forward by `n`, the day is clamped to the target month's length, the
/// time of day is kept, and `None` comes back when the result is out of range.
#[verifier::external_body]
pub(crate) fn add_months(t: &Timestamp, n: u32) -> (r: Option<Timestamp>)
    requires
        t.wf(),
    ensures
        r == months_later(*t, n as nat),
{
    let d = chrono::NaiveDate::from_ymd_opt(t.year, t.month, t.day).unwrap();
    let x = d.and_time(chrono::NaiveTime::from_num_seconds_from_midnight_opt(t.secs, 0).unwrap());
    match x.checked_add_months(chrono::Months::new(n)) {
        Some(y) => Some(Timestamp { year: y.year(), month: y.month(), day: y.day(), secs: y.num_seconds_from_midnight() }),
        None => None,
    }
}

/// Relies on chrono's `Utc::now`: the current wall-clock time in UTC, whose
/// date lies in chrono's year range and whose seconds since midnight are
/// below 86400.
#[verifier::external_body]
pub(crate) fn utc_now() -> (r: Timestamp)
    ensures
        r.wf(),
{
    let y = chrono::Utc::now().naive_utc();
    Timestamp { year: y.year(), month: y.month(), day: y.day(), secs: y.num_seconds_from_midnight() }
}

/// Relies on chrono's `NaiveDateTime::signed_duration_since` and
/// `TimeDelta::num_seconds`: the whole seconds from `from` to `to` (a day
/// difference on the proleptic Gregorian calendar plus the difference of the
/// times of day).
#[verifier::external_body]
fn seconds_between(from: &Timestamp, to: &Timestamp) -> (r: i64)
    requires
        from.wf(),
        to.wf(),
    ensures
        r == seconds_of(*to) - seconds_of(*from),
{
    let a = chrono::NaiveDate::from_ymd_opt(from.year, from.month, from.day).unwrap();
    let a = a.and_time(chrono::NaiveTime::from_num_seconds_from_midnight_opt(from.secs, 0).unwrap());
    let b = chrono::NaiveDate::from_ymd_opt(to.year, to.month, to.day).unwrap();
    let b = b.and_time(chrono::NaiveTime::from_num_seconds_from_midnight_opt(to.secs, 0).unwrap());
    b.signed_duration_since(a).num_seconds()
}

/// Relies on chrono's `TimeDelta::try_seconds` and
/// `NaiveDateTime::checked_add_signed`: `t` moved by `secs` seconds, or `None`
/// when that leaves chrono's date range (1 January of the first supported year
/// to 31 December of the last).
#[verifier::external_body]
fn shift_seconds(t: &Timestamp, secs: i64) -> (r: Option<Timestamp>)
    requires
        t.wf(),
    ensures
        r is Some <==> first_second() <= seconds_of(*t) + secs <= last_second(),
        r matches Some(x) ==> x.wf() && seconds_of(x) == seconds_of(*t) + secs,
{
    let d = chrono::NaiveDate::from_ymd_opt(t.year, t.month, t.day).unwrap();
    let x = d.and_time(chrono::NaiveTime::from_num_seconds_from_midnight_opt(t.secs, 0).unwrap());
    let delta = match chrono::TimeDelta::try_seconds(secs) {
        Some(delta) => delta,
        None => return None,
    };
    match x.checked_add_signed(delta) {
        Some(y) => Some(Timestamp { year: y.year(), month: y.month(), day: y.day(), secs: y.num_seconds_from_midnight() }),
        None => None,
    }
}

/// Whole calendar months from the month of `start` to the month of `end`,
/// ignoring days and time of day (negative when `end` is in an earlier month).
pub fn signed_month_difference(start: &Timestamp, end: &Timestamp) -> (r: i32)
    requires
        start.wf(),
        end.wf(),
    ensures
        r == end.month_index() - start.month_index(),
{
    let years_diff: i32 = end.year - start.year;
    let month_diff: i32 = end.month as i32 - start.month as i32;
    years_diff * 12 + month_diff
}

/// A virtual clock: "now" is the virtual anchor plus the real time elapsed
/// since it was set, or the real time when no virtual anchor is set.
pub struct TimeService {
    pub real_time: Timestamp,
    pub virtual_time: Option<Timestamp>,
}

impl TimeService {
    pub open spec fn wf(&self) -> bool {
        &&& self.real_time.wf()
        &&& self.virtual_time matches Some(v) ==> v.wf()
    }

    /// "Now", in seconds, when the real clock reads `actual`.
    pub open spec fn now_seconds(&self, actual: Timestamp) -> int {
        match self.virtual_time {
            None => seconds_of(actual),
            Some(v) => seconds_of(v) + (seconds_of(actual) - seconds_of(self.real_time)),
        }
    }

    /// "Now" when the real clock reads `actual`: the real time when no virtual
    /// time is set, otherwise the virtual anchor plus the real time elapsed
    /// since it was set (`None` when that leaves the supported range).
    pub open spec fn now_at(&self, actual: Timestamp) -> Option<Timestamp> {
        match self.virtual_time {
            None => Some(actual),
            Some(_) => from_seconds(self.now_seconds(actual)),
        }
    }

    /// A clock that follows real time, anchored at the current time.
    pub fn new() -> (r: TimeService)
        ensures
            r.wf(),
            r.virtual_time is None,
    {
        TimeService { real_time: utc_now(), virtual_time: None }
    }

    /// A clock that follows real time, anchored at `actual`.
    pub fn anchored_at(actual: Timestamp) -> (r: TimeService)
        requires
            actual.wf(),
        ensures
            r.wf(),
            r.real_time == actual,
            r.virtual_time is None,
    {
        TimeService { real_time: actual, virtual_time: None }
    }

    /// "Now" when the real clock reads `actual`.
    pub fn time_at(&self, actual: &Timestamp) -> (r: Option<Timestamp>)
        requires
            self.wf(),
            actual.wf(),
        ensures
            r == self.now_at(*actual),
            r matches Some(x) ==> x.wf() && seconds_of(x) == self.now_seconds(*actual),
    {
        match &self.virtual_time {
            None => {
                proof {
                    assert(seconds_of(*actual) == self.now_seconds(*actual));
                }
                Some(*actual)
            },
            Some(v) => {
                let elapsed = seconds_between(&self.real_time, actual);
                let r = shift_seconds(v, elapsed);
                proof {
                    let s = self.now_seconds(*actual);
                    match r {
                        Some(x) => {
                            lemma_from_seconds(x);
                        },
                        None => {
                            if exists|x: Timestamp| x.wf() && seconds_of(x) == s {
                                let x = choose|x: Timestamp| x.wf() && seconds_of(x) == s;
                                lemma_seconds_range(x);
                            }
                        },
                    }
                }
                r
            },
        }
    }

    /// The current virtual time, reading the real clock.
    pub fn get_time(&self) -> (r: Option<Timestamp>)
        requires
            self.wf(),
        ensures
            self.virtual_time is None ==> r is Some,
            r matches Some(x) ==> x.wf() && exists|a: Timestamp| a.wf() && self.now_at(a) == Some(x),
    {
        let actual = utc_now();
        self.time_at(&actual)
    }

    /// Moves the clock to `dt`, with the real clock reading `actual`. Fails
    /// with `ClockMovedBackward` unless `dt` is strictly after the current
    /// "now", and with `DateOutOfRange` when "now" leaves the supported range.
    pub fn advance_at(&mut self, dt: &Timestamp, actual: &Timestamp) -> (r: Result<(), BankError>)
        requires
            old(self).wf(),
            dt.wf(),
            actual.wf(),
        ensures
            final(self).wf(),
            r == match old(self).now_at(*actual) {
                None => Err(BankError::DateOutOfRange),
                Some(now) => if now.before(*dt) {
                    Ok(())
                } else {
                    Err(BankError::ClockMovedBackward)
                },
            },
            r is Ok ==> final(self).real_time == *actual && final(self).virtual_time == Some(*dt),
            r is Err ==> *final(self) == *old(self),
    {
        match self.time_at(actual) {
            None => Err(BankError::DateOutOfRange),
            Some(now) => {
                if now.is_before(dt) {
                    self.real_time = *actual;
                    self.virtual_time = Some(*dt);
                    Ok(())
                } else {
                    Err(BankError::ClockMovedBackward)
                }
            },
        }
    }

    /// Moves the clock to `dt`, reading the real clock now (see `advance_at`).
    pub fn set_time(&mut self, dt: &Timestamp) -> (r: Result<(), BankError>)
        requires
            old(self).wf(),
            dt.wf(),
        ensures
            final(self).wf(),
            r is Ok ==> final(self).virtual_time == Some(*dt) && final(self).real_time.wf()
                && exists|a: Timestamp| a.wf() && (old(self).now_at(a) matches Some(now) && now.before(*dt)),
            r is Err ==> *final(self) == *old(self),
    {
        let actual = utc_now();
        self.advance_at(dt, &actual)
    }
}

} // verus!
