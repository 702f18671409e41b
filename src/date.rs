//! Calendar dates as day numbers, clock times as seconds, and the excluded-date expander.
//!
//! A date is held as its day number in the proleptic Gregorian calendar, counting
//! 1 January of year 1 as day 1. What only a calendar library can compute (reading
//! and writing dates, the clock) goes through `chrono`.

use vstd::prelude::*;
use chrono::{Datelike, Timelike};

verus! {

/// The first day number that `chrono` can represent.
pub const MIN_DAY: i32 = -95746129;
/// The last day number that `chrono` can represent.
pub const MAX_DAY: i32 = 95745399;
/// Seconds in a day.
pub const DAY_SECONDS: u32 = 86400;
/// The most dates that one excluded entry expands to.
pub const MAX_EXCLUDED_PER_ENTRY: u32 = 365;

/// A calendar date.
#[derive(Clone, Copy, Debug, PartialEq, Eq, Structural, Hash)]
pub struct Date {
    pub days: i32,
}

/// A time of day, in seconds after midnight.
#[derive(Clone, Copy, Debug, PartialEq, Eq, Structural, Hash)]
pub struct Time {
    pub secs: u32,
}

/// The day number of the date `m/d/y` that `chrono` reads from `s`, if any.
pub uninterp spec fn mdy_day_number(s: Seq<char>) -> Option<int>;

/// The day number of year `y`, month `m`, day `d`, if that date exists.
pub uninterp spec fn ymd_day_number(y: int, m: int, d: int) -> Option<int>;

/// The seconds after midnight of the 12-hour clock time that `chrono` reads from `s`.
pub uninterp spec fn clock_seconds(s: Seq<char>) -> Option<int>;

/// The weekday (Sunday = 0) whose English name or abbreviation is `s`.
pub uninterp spec fn weekday_number(s: Seq<char>) -> Option<int>;

/// The text `YYYYMMDDTHHMMSS` of day `days` at `secs` seconds after midnight.
pub uninterp spec fn stamp_text(days: int, secs: int) -> Seq<char>;

impl Date {
    pub open spec fn wf(self) -> bool {
        MIN_DAY <= self.days <= MAX_DAY
    }

    /// Weekday of this date, Sunday = 0 (day 1 was a Monday).
    pub open spec fn spec_weekday(self) -> int {
        self.days as int % 7
    }

    /// The date with day number `days`, if it lies in the supported range.
    pub fn from_days(days: i32) -> (r: Option<Date>)
        ensures
            r == (if MIN_DAY <= days <= MAX_DAY { Some(Date { days }) } else { None::<Date> }),
    {
        if MIN_DAY <= days && days <= MAX_DAY {
            Some(Date { days })
        } else {
            None
        }
    }

    /// The date of year `year`, month `month`, day `day`, if it exists.
    pub fn from_ymd(year: i32, month: u32, day: u32) -> (r: Option<Date>)
        ensures
            r.is_some() == ymd_day_number(year as int, month as int, day as int).is_some(),
            r matches Some(d) ==> d.wf() && d.days as int == ymd_day_number(year as int, month as int, day as int)->0,
    {
        match ymd_to_days(year, month, day) {
            Some(n) => Some(Date { days: n }),
            None => None,
        }
    }

    /// Reads a date written `month/day/year`.
    pub fn parse_mdy(s: &str) -> (r: Option<Date>)
        ensures
            r.is_some() == mdy_day_number(s@).is_some(),
            r matches Some(d) ==> d.wf() && d.days as int == mdy_day_number(s@)->0,
    {
        match mdy_to_days(s) {
            Some(n) => Some(Date { days: n }),
            None => None,
        }
    }

    /// Weekday of this date, Sunday = 0.
    pub fn weekday(&self) -> (r: u32)
        requires
            self.wf(),
        ensures
            r as int == self.spec_weekday(),
            r < 7,
    {
        weekday_from_sunday(self.days)
    }

    /// The date `n` days later.
    pub fn add_days(&self, n: u32) -> (r: Date)
        requires
            self.days + n <= MAX_DAY,
            self.wf(),
        ensures
            r.days == self.days + n,
            r.wf(),
    {
        Date { days: self.days + n as i32 }
    }
}

impl Time {
    pub open spec fn wf(self) -> bool {
        self.secs < DAY_SECONDS
    }

    /// Reads a 12-hour clock time such as `9:30 AM`.
    pub fn parse_12h(s: &str) -> (r: Option<Time>)
        ensures
            r.is_some() == clock_seconds(s@).is_some(),
            r matches Some(t) ==> t.wf() && t.secs as int == clock_seconds(s@)->0,
    {
        match clock_to_secs(s) {
            Some(n) => Some(Time { secs: n }),
            None => None,
        }
    }

    /// The time `h:m:s`.
    pub fn from_hms(h: u32, m: u32, s: u32) -> (r: Time)
        requires
            h < 24,
            m < 60,
            s < 60,
        ensures
            r.secs == h * 3600 + m * 60 + s,
            r.wf(),
    {
        Time { secs: h * 3600 + m * 60 + s }
    }
}

/// Relies on `chrono::NaiveDate::from_ymd_opt`: `None` for a date that does not
/// exist or lies outside the supported range; otherwise a date whose day number
/// (`Datelike::num_days_from_ce`) lies in that range.
#[verifier::external_body]
fn ymd_to_days(year: i32, month: u32, day: u32) -> (r: Option<i32>)
    ensures
        r.is_some() == ymd_day_number(year as int, month as int, day as int).is_some(),
        r matches Some(n) ==> MIN_DAY <= n <= MAX_DAY && n as int == ymd_day_number(year as int, month as int, day as int)->0,
{
    chrono::NaiveDate::from_ymd_opt(year, month, day).map(|d| d.num_days_from_ce())
}

/// Relies on `chrono::NaiveDate::parse_from_str` with the format `%m/%d/%Y`:
/// a date is read or the text is refused.
#[verifier::external_body]
fn mdy_to_days(s: &str) -> (r: Option<i32>)
    ensures
        r.is_some() == mdy_day_number(s@).is_some(),
        r matches Some(n) ==> MIN_DAY <= n <= MAX_DAY && n as int == mdy_day_number(s@)->0,
{
    chrono::NaiveDate::parse_from_str(s, "%m/%d/%Y").ok().map(|d| d.num_days_from_ce())
}

/// Relies on `chrono::NaiveTime::parse_from_str` with the format `%I:%M %p`;
/// a `NaiveTime` lies within one day.
#[verifier::external_body]
fn clock_to_secs(s: &str) -> (r: Option<u32>)
    ensures
        r.is_some() == clock_seconds(s@).is_some(),
        r matches Some(n) ==> n < DAY_SECONDS && n as int == clock_seconds(s@)->0,
{
    chrono::NaiveTime::parse_from_str(s, "%I:%M %p").ok().map(|t| t.num_seconds_from_midnight())
}

/// Relies on `chrono::Datelike::weekday` and `Weekday::num_days_from_sunday`;
/// day 1 (1 January of year 1) is a Monday.
#[verifier::external_body]
fn weekday_from_sunday(days: i32) -> (r: u32)
    requires
        MIN_DAY <= days <= MAX_DAY,
    ensures
        r as int == days as int % 7,
{
    chrono::NaiveDate::from_num_days_from_ce_opt(days).unwrap().weekday().num_days_from_sunday()
}

/// Relies on `chrono::Weekday`'s `FromStr`: a weekday's English name or its
/// three-letter abbreviation, in any case; the result counted from Sunday.
#[verifier::external_body]
pub(crate) fn parse_weekday(s: &str) -> (r: Option<u32>)
    ensures
        r.is_some() == weekday_number(s@).is_some(),
        r matches Some(n) ==> n < 7 && n as int == weekday_number(s@)->0,
{
    s.parse::<chrono::Weekday>().ok().map(|w| w.num_days_from_sunday())
}

/// Relies on `chrono::NaiveDateTime::format` with `%Y%m%dT%H%M%S`.
#[verifier::external_body]
pub(crate) fn stamp(date: Date, time: Time) -> (r: String)
    requires
        date.wf(),
        time.wf(),
    ensures
        r@ == stamp_text(date.days as int, time.secs as int),
{
    let d = chrono::NaiveDate::from_num_days_from_ce_opt(date.days).unwrap();
    let t = chrono::NaiveTime::from_num_seconds_from_midnight_opt(time.secs, 0).unwrap();
    d.and_time(t).format("%Y%m%dT%H%M%S").to_string()
}

/// Relies on `chrono::Utc::now`: the current date and time in UTC, which lie in
/// the supported range.
#[verifier::external_body]
pub(crate) fn now_utc() -> (r: (Date, Time))
    ensures
        r.0.wf(),
        r.1.wf(),
{
    let now = chrono::Utc::now().naive_utc();
    (Date { days: now.num_days_from_ce() }, Time { secs: now.num_seconds_from_midnight() })
}

/// First occurrence of `weekday` (Sunday = 0) on or after `start`.
pub open spec fn spec_first_occurrence(start: Date, weekday: int) -> int {
    start.days + (weekday - start.spec_weekday()) % 7
}

/// The first date on or after `start` that falls on `weekday` (Sunday = 0).
pub fn first_occurrence(start: Date, weekday: u32) -> (r: Date)
    requires
        start.wf(),
        start.days + 6 <= MAX_DAY,
        weekday < 7,
    ensures
        r.wf(),
        r.days == spec_first_occurrence(start, weekday as int),
        start.days <= r.days <= start.days + 6,
        r.spec_weekday() == weekday,
{
    let from = start.weekday();
    let offset: u32 = if weekday >= from { weekday - from } else { weekday + 7 - from };
    assert(offset as int == (weekday as int - from as int) % 7);
    let r = start.add_days(offset);
    assert(r.spec_weekday() == weekday) by {
        assert((start.days as int + offset) % 7 == weekday) by (nonlinear_arith)
            requires
                start.days as int % 7 == from as int,
                offset as int == (weekday as int - from as int) % 7,
                weekday < 7,
                from < 7,
        ;
    }
    r
}

/// Weekday anchoring: the first occurrence lies within the week that starts on
/// `start`, falls on the target weekday, and is `start` itself exactly when `start`
/// already falls on it.
pub proof fn lemma_first_occurrence_in_week(start: Date, weekday: int)
    requires
        start.wf(),
        0 <= weekday < 7,
    ensures
        start.days <= spec_first_occurrence(start, weekday) <= start.days + 6,
        spec_first_occurrence(start, weekday) % 7 == weekday,
        (spec_first_occurrence(start, weekday) == start.days) == (start.spec_weekday() == weekday),
{
    let w = start.spec_weekday();
    let off = (weekday - w) % 7;
    assert(spec_first_occurrence(start, weekday) % 7 == weekday) by (nonlinear_arith)
        requires
            w == start.days as int % 7,
            off == (weekday - w) % 7,
            0 <= weekday < 7,
    ;
    assert((off == 0) == (w == weekday)) by (nonlinear_arith)
        requires
            off == (weekday - w) % 7,
            0 <= w < 7,
            0 <= weekday < 7,
    ;
}

/// An excluded entry: one date, or an inclusive range whose ends may come in either order.
#[derive(Clone, Copy, Debug, PartialEq, Eq, Structural)]
pub struct ExcludedDate {
    pub start: Date,
    pub end: Option<Date>,
}

impl ExcludedDate {
    pub open spec fn wf(self) -> bool {
        self.start.wf() && (self.end matches Some(e) ==> e.wf())
    }

    /// The earlier end of the entry.
    pub open spec fn low(self) -> int {
        match self.end {
            Some(e) => if e.days < self.start.days { e.days as int } else { self.start.days as int },
            None => self.start.days as int,
        }
    }

    /// The later end of the entry.
    pub open spec fn high(self) -> int {
        match self.end {
            Some(e) => if e.days < self.start.days { self.start.days as int } else { e.days as int },
            None => self.start.days as int,
        }
    }

    /// Whether the entry excludes day `day`: it lies in the interval and among its
    /// first 365 days.
    pub open spec fn covers(self, day: int) -> bool {
        self.low() <= day <= self.high() && day < self.low() + MAX_EXCLUDED_PER_ENTRY
    }

    /// The number of days the entry expands to.
    pub open spec fn spec_count(self) -> int {
        if self.high() - self.low() + 1 < MAX_EXCLUDED_PER_ENTRY {
            self.high() - self.low() + 1
        } else {
            MAX_EXCLUDED_PER_ENTRY as int
        }
    }

    pub fn new(start: Date, end: Option<Date>) -> (r: ExcludedDate)
        ensures
            r == (ExcludedDate { start, end }),
    {
        ExcludedDate { start, end }
    }

    /// One excluded date.
    pub fn single(date: Date) -> (r: ExcludedDate)
        ensures
            r == (ExcludedDate { start: date, end: None }),
    {
        ExcludedDate { start: date, end: None }
    }

    /// An inclusive range of excluded dates.
    pub fn range(start: Date, end: Date) -> (r: ExcludedDate)
        ensures
            r == (ExcludedDate { start, end: Some(end) }),
    {
        ExcludedDate { start, end: Some(end) }
    }

    /// The dates of the entry in increasing order: every date from the earlier
    /// end to the later one, at most 365 of them.
    pub fn iter_days(&self) -> (r: Vec<Date>)
        requires
            self.wf(),
        ensures
            r.len() == self.spec_count(),
            forall|i: int| 0 <= i < r.len() ==> #[trigger] r[i].days == self.low() + i && r[i].wf(),
            forall|day: int| self.covers(day) <==> has_day(r@, day),
    {
        let (lo, hi) = match self.end {
            Some(e) => if e.days < self.start.days { (e, self.start) } else { (self.start, e) },
            None => (self.start, self.start),
        };
        let mut r: Vec<Date> = Vec::new();
        let mut n: u32 = 0;
        while n < MAX_EXCLUDED_PER_ENTRY && lo.days + (n as i32) <= hi.days
            invariant
                lo.days == self.low(),
                hi.days == self.high(),
                lo.wf(),
                hi.wf(),
                n <= MAX_EXCLUDED_PER_ENTRY,
                lo.days + n <= hi.days + 1,
                r.len() == n,
                forall|i: int| 0 <= i < r.len() ==> #[trigger] r[i].days == self.low() + i && r[i].wf(),
            decreases MAX_EXCLUDED_PER_ENTRY - n,
        {
            r.push(lo.add_days(n));
            n = n + 1;
        }
        assert forall|day: int| self.covers(day) implies has_day(r@, day) by {
            assert(r[day - self.low()].days == day);
        }
        r
    }
}

/// Whether some date of `v` is day `day`.
pub open spec fn has_day(v: Seq<Date>, day: int) -> bool {
    exists|i: int| 0 <= i < v.len() && #[trigger] v[i].days == day
}

/// The days excluded by the entries.
pub open spec fn excluded(entries: Seq<ExcludedDate>, day: int) -> bool {
    exists|k: int| 0 <= k < entries.len() && #[trigger] entries[k].covers(day)
}

fn contains_date(v: &Vec<Date>, d: Date) -> (r: bool)
    ensures
        r == exists|i: int| 0 <= i < v.len() && v[i] == d,
{
    let mut i: usize = 0;
    while i < v.len()
        invariant
            i <= v.len(),
            forall|j: int| 0 <= j < i ==> v[j] != d,
        decreases v.len() - i,
    {
        if v[i] == d {
            return true;
        }
        i = i + 1;
    }
    false
}

/// The set of excluded dates: every date that some entry covers, each once.
pub fn expand_excluded(entries: &Vec<ExcludedDate>) -> (r: Vec<Date>)
    requires
        forall|k: int| 0 <= k < entries.len() ==> #[trigger] entries[k].wf(),
    ensures
        forall|i: int| 0 <= i < r.len() ==> #[trigger] r[i].wf() && excluded(entries@, r[i].days as int),
        forall|day: int| excluded(entries@, day) ==> has_day(r@, day),
        forall|i: int, j: int| 0 <= i < j < r.len() ==> r[i] != r[j],
{
    let mut r: Vec<Date> = Vec::new();
    let mut k: usize = 0;
    while k < entries.len()
        invariant
            k <= entries.len(),
            forall|k2: int| 0 <= k2 < entries.len() ==> #[trigger] entries[k2].wf(),
            forall|i: int| 0 <= i < r.len() ==> #[trigger] r[i].wf() && excluded(entries@, r[i].days as int),
            forall|k2: int, day: int| 0 <= k2 < k && #[trigger] entries[k2].covers(day) ==> has_day(r@, day),
            forall|i: int, j: int| 0 <= i < j < r.len() ==> r[i] != r[j],
        decreases entries.len() - k,
    {
        let days = entries[k].iter_days();
        let mut j: usize = 0;
        while j < days.len()
            invariant
                k < entries.len(),
                j <= days.len(),
                days.len() == entries[k as int].spec_count(),
                forall|i: int| 0 <= i < days.len() ==> #[trigger] days[i].days == entries[k as int].low() + i && days[i].wf(),
                forall|day: int| entries[k as int].covers(day) <==> exists|i: int| 0 <= i < days.len() && #[trigger] days[i].days == day,
                forall|i: int| 0 <= i < r.len() ==> #[trigger] r[i].wf() && excluded(entries@, r[i].days as int),
                forall|k2: int, day: int| 0 <= k2 < k && #[trigger] entries[k2].covers(day) ==> has_day(r@, day),
                forall|j2: int| 0 <= j2 < j ==> has_day(r@, #[trigger] days[j2].days as int),
                forall|i: int, i2: int| 0 <= i < i2 < r.len() ==> r[i] != r[i2],
            decreases days.len() - j,
        {
            let d = days[j];
            assert(entries[k as int].covers(d.days as int));
            if !contains_date(&r, d) {
                let ghost prev = r@;
                r.push(d);
                proof {
                    assert(r[r.len() - 1].days == d.days);
                    assert(excluded(entries@, d.days as int));
                    assert forall|day: int| has_day(prev, day) implies has_day(r@, day) by {
                        let i = choose|i: int| 0 <= i < prev.len() && #[trigger] prev[i].days == day;
                        assert(r@[i] == prev[i]);
                    }
                }
            } else {
                proof {
                    let i = choose|i: int| 0 <= i < r.len() && r[i] == d;
                    assert(r[i].days == d.days);
                }
            }
            j = j + 1;
        }
        assert forall|k2: int, day: int| 0 <= k2 < k + 1 && #[trigger] entries[k2].covers(day) implies has_day(r@, day) by {
            if k2 == k {
                let j2 = choose|j2: int| 0 <= j2 < days.len() && #[trigger] days[j2].days == day;
                assert(has_day(r@, #[trigger] days[j2].days as int));
            }
        }
        k = k + 1;
    }
    r
}

} // verus!
