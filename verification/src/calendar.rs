//! Calendar values: dates as day numbers and UTC instants as
//! (seconds, nanoseconds) pairs, with the chrono calls that read,
//! print and move them.
use vstd::prelude::*;

use crate::pomodoro::{decimal, two_digits};
use chrono::{DateTime, Datelike, Local, NaiveDate, TimeDelta, Utc};

verus! {

/// Day number (days since 0001-01-01 counted from 1) of chrono's earliest
/// date, -262143-01-01.
pub const MIN_DAY: i32 = -95746129i32;

/// Day number of chrono's latest date, +262142-12-31.
pub const MAX_DAY: i32 = 95745399i32;

/// Day number of 0000-01-01, the first date whose year chrono writes with
/// four digits.
pub const FIRST_FOUR_DIGIT_DAY: i32 = -365i32;

/// Day number of 9999-12-31, the last date whose year chrono writes with
/// four digits.
pub const LAST_FOUR_DIGIT_DAY: i32 = 3652059i32;

/// Seconds since the epoch of 0000-01-01T00:00:00Z.
pub const FIRST_FOUR_DIGIT_SEC: i64 = -62167219200i64;

/// Seconds since the epoch of 9999-12-31T23:59:59Z.
pub const LAST_FOUR_DIGIT_SEC: i64 = 253402300799i64;

/// Day number of 1970-01-01.
pub const EPOCH_DAY: i64 = 719163i64;

/// Whether `d` is the day number of a date that chrono can hold.
pub open spec fn day_in_range(d: int) -> bool {
    MIN_DAY <= d <= MAX_DAY
}

// ---------------------------------------------------------------------
// chrono, behind trusted items
// ---------------------------------------------------------------------

#[verifier::external_type_specification]
#[verifier::external_body]
pub struct ExParseError(chrono::ParseError);

/// Whether `y` is a leap year of the proleptic Gregorian calendar.
pub open spec fn is_leap_year(y: int) -> bool {
    y % 4 == 0 && (y % 100 != 0 || y % 400 == 0)
}

/// The number of days of month `m` (1 to 12) of year `y`.
pub open spec fn month_len(y: int, m: int) -> int {
    if m == 2 {
        if is_leap_year(y) {
            29
        } else {
            28
        }
    } else if m == 4 || m == 6 || m == 9 || m == 11 {
        30
    } else {
        31
    }
}

/// The days of year `y` before month `m`.
pub open spec fn days_before_month(y: int, m: int) -> int
    decreases m,
{
    if m <= 1 {
        0
    } else {
        days_before_month(y, m - 1) + month_len(y, m - 1)
    }
}

/// The day number (0001-01-01 is day 1) of `year-month-day` in the
/// proleptic Gregorian calendar.
pub open spec fn civil_day(year: int, month: int, day: int) -> int {
    let p = year - 1;
    365 * p + p / 4 - p / 100 + p / 400 + days_before_month(year, month) + day
}

/// The day number of `year-month-day`, if that date exists and lies in
/// chrono's years, -262143 to 262142.
pub open spec fn ymd_day(year: int, month: int, day: int) -> Option<int> {
    if -262143 <= year <= 262142 && 1 <= month <= 12 && 1 <= day <= month_len(year, month) {
        Some(civil_day(year, month, day))
    } else {
        None
    }
}

/// Wraps `NaiveDate::from_ymd_opt` followed by `Datelike::num_days_from_ce`.
/// chrono gives a date for a month from 1 to 12, a day of that month of the
/// proleptic Gregorian calendar and a year from -262143 to 262142, and counts
/// days from 0001-01-01 as day 1; every `NaiveDate` lies between chrono's
/// earliest and latest date.
#[verifier::external_body]
fn chrono_ymd_day(year: i32, month: u32, day: u32) -> (res: Option<i32>)
    ensures
        res matches Some(d) ==> ymd_day(year as int, month as int, day as int) == Some(d as int)
            && day_in_range(d as int),
        res is None ==> ymd_day(year as int, month as int, day as int) is None,
{
    match NaiveDate::from_ymd_opt(year, month, day) {
        Some(n) => Some(n.num_days_from_ce()),
        None => None,
    }
}

/// The calendar date (year, month, day) whose day number is `day`.
pub open spec fn civil_of(day: int) -> (int, int, int) {
    choose|y: int, m: int, d: int| ymd_day(y, m, d) == Some(day)
}

/// `n` in decimal with at least four digits, padded with leading zeros.
pub open spec fn four_digits(n: nat) -> Seq<char> {
    if n < 10 {
        "000"@ + decimal(n)
    } else if n < 100 {
        "00"@ + decimal(n)
    } else if n < 1000 {
        "0"@ + decimal(n)
    } else {
        decimal(n)
    }
}

/// A year as `NaiveDate` writes it: four digits from 0 to 9999, otherwise
/// a sign and at least four digits.
pub open spec fn year_text(y: int) -> Seq<char> {
    if 0 <= y <= 9999 {
        four_digits(y as nat)
    } else if y < 0 {
        "-"@ + four_digits((-y) as nat)
    } else {
        "+"@ + four_digits(y as nat)
    }
}

/// What `NaiveDate`'s `Display` writes for the date with this day number:
/// year, month and day, joined by hyphens, month and day with two digits.
pub open spec fn date_text(day: int) -> Seq<char> {
    let (y, m, d) = civil_of(day);
    year_text(y) + "-"@ + two_digits(m as nat) + "-"@ + two_digits(d as nat)
}

/// What `NaiveDate::parse_from_str(s, "%Y-%m-%d")` gives, as a day number.
pub uninterp spec fn spec_parse_ymd(s: Seq<char>) -> Option<int>;

/// Wraps `NaiveDate::from_num_days_from_ce_opt` and `to_string`, which
/// chrono documents as "%Y-%m-%d": a year from 0 to 9999 as four digits,
/// others with a sign ("-0001", "+10000"), then month and day with two
/// digits. `parse_from_str` with "%Y-%m-%d" reads a four-digit year back.
#[verifier::external_body]
fn chrono_date_text(day: i32) -> (res: String)
    requires
        day_in_range(day as int),
    ensures
        res@ == date_text(day as int),
        res@.len() > 0,
        FIRST_FOUR_DIGIT_DAY <= day <= LAST_FOUR_DIGIT_DAY ==> spec_parse_ymd(res@) == Some(
            day as int,
        ),
{
    NaiveDate::from_num_days_from_ce_opt(day).unwrap().to_string()
}

/// Wraps `NaiveDate::parse_from_str(s, "%Y-%m-%d")`, giving the day number.
#[verifier::external_body]
fn chrono_parse_ymd(s: &str) -> (res: Result<i32, chrono::ParseError>)
    ensures
        res matches Ok(d) ==> spec_parse_ymd(s@) == Some(d as int) && day_in_range(d as int),
        res is Err ==> spec_parse_ymd(s@) is None,
{
    match NaiveDate::parse_from_str(s, "%Y-%m-%d") {
        Ok(n) => Ok(n.num_days_from_ce()),
        Err(e) => Err(e),
    }
}

/// Wraps `NaiveDate::checked_add_signed` with a whole number of days: the
/// date `n` days later, or `None` where that leaves chrono's range.
#[verifier::external_body]
fn chrono_add_days(day: i32, n: i64) -> (res: Option<i32>)
    requires
        day_in_range(day as int),
        -1000000000 <= n <= 1000000000,
    ensures
        res == (if day_in_range(day + n) {
            Some((day + n) as i32)
        } else {
            None::<i32>
        }),
{
    match NaiveDate::from_num_days_from_ce_opt(day).unwrap().checked_add_signed(
        TimeDelta::days(n),
    ) {
        Some(d) => Some(d.num_days_from_ce()),
        None => None,
    }
}

/// Wraps `NaiveDate - NaiveDate` followed by `TimeDelta::num_days`: the
/// signed number of days from `b` to `a`.
#[verifier::external_body]
fn chrono_days_between(a: i32, b: i32) -> (res: i64)
    requires
        day_in_range(a as int),
        day_in_range(b as int),
    ensures
        res == a - b,
{
    (NaiveDate::from_num_days_from_ce_opt(a).unwrap() - NaiveDate::from_num_days_from_ce_opt(
        b,
    ).unwrap()).num_days()
}

/// Wraps `Local::now().date_naive()`: today's date in the machine's time
/// zone. It depends on the clock and the zone, so only its range is stated.
#[verifier::external_body]
fn chrono_local_today() -> (res: i32)
    ensures
        day_in_range(res as int),
{
    Local::now().date_naive().num_days_from_ce()
}

// ---------------------------------------------------------------------
// Date
// ---------------------------------------------------------------------

/// A calendar date (proleptic Gregorian), held as its day number.
#[derive(Clone, Copy, Debug, PartialEq, Eq, Structural)]
pub struct Date {
    day: i32,
}

impl View for Date {
    type V = int;

    closed spec fn view(&self) -> int {
        self.day as int
    }
}

impl Date {
    #[verifier::type_invariant]
    spec fn in_range(self) -> bool {
        day_in_range(self.day as int)
    }

    /// The day number (days since 0001-01-01, that day being 1).
    pub fn day_number(&self) -> (res: i32)
        ensures
            res == self@,
            day_in_range(res as int),
    {
        proof {
            use_type_invariant(self);
        }
        self.day
    }

    /// The date with this day number, if chrono can hold it.
    pub fn from_day_number(day: i32) -> (res: Option<Date>)
        ensures
            res matches Some(d) ==> d@ == day,
            res is Some <==> day_in_range(day as int),
    {
        if MIN_DAY <= day && day <= MAX_DAY {
            Some(Date { day })
        } else {
            None
        }
    }

    /// `NaiveDate::from_ymd_opt`: the date, if it exists.
    pub fn from_ymd(year: i32, month: u32, day: u32) -> (res: Option<Date>)
        ensures
            res matches Some(d) ==> ymd_day(year as int, month as int, day as int) == Some(d@),
            res is None ==> ymd_day(year as int, month as int, day as int) is None,
    {
        match chrono_ymd_day(year, month, day) {
            Some(n) => Some(Date { day: n }),
            None => None,
        }
    }

    /// Whether `self` is strictly before `other`.
    pub fn before(&self, other: &Date) -> (res: bool)
        ensures
            res == (self@ < other@),
    {
        self.day < other.day
    }

    /// Whether `self` and `other` are the same date.
    pub fn same(&self, other: &Date) -> (res: bool)
        ensures
            res == (self@ == other@),
    {
        self.day == other.day
    }

    /// `(self - other).num_days()`: signed days from `other` to `self`.
    pub fn days_since(&self, other: &Date) -> (res: i64)
        ensures
            res == self@ - other@,
    {
        proof {
            use_type_invariant(self);
            use_type_invariant(other);
        }
        chrono_days_between(self.day, other.day)
    }

    /// The date `n` days later (earlier for negative `n`), if chrono can hold it.
    pub fn add_days(&self, n: i64) -> (res: Option<Date>)
        ensures
            res matches Some(d) ==> d@ == self@ + n,
            res is Some <==> day_in_range(self@ + n),
    {
        proof {
            use_type_invariant(self);
        }
        if n < -1000000000 || n > 1000000000 {
            // So far that no date chrono holds is reached.
            return None;
        }
        match chrono_add_days(self.day, n) {
            Some(d) => Some(Date { day: d }),
            None => None,
        }
    }

    /// The date as `NaiveDate`'s `Display` writes it ("YYYY-MM-DD").
    pub fn to_text(&self) -> (res: String)
        ensures
            res@ == date_text(self@),
            res@.len() > 0,
            FIRST_FOUR_DIGIT_DAY <= self@ <= LAST_FOUR_DIGIT_DAY ==> spec_parse_ymd(res@) == Some(
                self@,
            ),
    {
        proof {
            use_type_invariant(self);
        }
        chrono_date_text(self.day)
    }

    /// `NaiveDate::parse_from_str(s, "%Y-%m-%d")`.
    pub fn parse_ymd(s: &str) -> (res: Result<Date, chrono::ParseError>)
        ensures
            res matches Ok(d) ==> spec_parse_ymd(s@) == Some(d@),
            res is Err <==> spec_parse_ymd(s@) is None,
    {
        match chrono_parse_ymd(s) {
            Ok(d) => Ok(Date { day: d }),
            Err(e) => Err(e),
        }
    }

    /// Today's date in the machine's local time zone.
    pub fn local_today() -> (res: Date) {
        Date { day: chrono_local_today() }
    }
}

/// A date is determined by its day number.
pub proof fn lemma_date_view_injective(a: Date, b: Date)
    requires
        a@ == b@,
    ensures
        a == b,
{
}

// ---------------------------------------------------------------------
// Timestamp
// ---------------------------------------------------------------------

/// Whether chrono's `DateTime::from_timestamp(secs, nanos)` accepts the
/// pair: the date lies in chrono's range and the nanoseconds are below two
/// seconds, above one second only in the last second of a minute (a leap
/// second).
pub open spec fn timestamp_valid(secs: int, nanos: int) -> bool {
    &&& day_in_range(secs / 86400 + EPOCH_DAY)
    &&& 0 <= nanos < 2000000000
    &&& nanos >= 1000000000 ==> (secs % 86400) % 60 == 59
}

/// Wraps `Utc::now()`, read as `timestamp()` and `timestamp_subsec_nanos()`.
/// It depends on the clock; any `DateTime<Utc>` read this way is accepted
/// back by `from_timestamp`.
#[verifier::external_body]
fn chrono_utc_now() -> (res: (i64, u32))
    ensures
        timestamp_valid(res.0 as int, res.1 as int),
{
    let t = Utc::now();
    (t.timestamp(), t.timestamp_subsec_nanos())
}

/// What `DateTime::<Utc>::to_rfc3339` writes for this instant.
pub uninterp spec fn spec_rfc3339_text(secs: int, nanos: int) -> Seq<char>;

/// What `DateTime::parse_from_rfc3339` gives, as UTC seconds and nanoseconds.
pub uninterp spec fn spec_parse_rfc3339(s: Seq<char>) -> Option<(int, int)>;

/// Wraps `DateTime::from_timestamp` and `to_rfc3339`. For a year from 0
/// to 9999 and no leap second chrono writes four-digit years and every
/// non-zero fraction digit, so `parse_from_rfc3339` reads the instant back.
#[verifier::external_body]
fn chrono_rfc3339_text(secs: i64, nanos: u32) -> (res: String)
    requires
        timestamp_valid(secs as int, nanos as int),
    ensures
        res@ == spec_rfc3339_text(secs as int, nanos as int),
        res@.len() > 0,
        FIRST_FOUR_DIGIT_SEC <= secs <= LAST_FOUR_DIGIT_SEC && nanos < 1000000000
            ==> spec_parse_rfc3339(res@) == Some((secs as int, nanos as int)),
{
    DateTime::from_timestamp(secs, nanos).unwrap().to_rfc3339()
}

/// Wraps `DateTime::parse_from_rfc3339`, converted to UTC and read as
/// `timestamp()` and `timestamp_subsec_nanos()`.
#[verifier::external_body]
fn chrono_parse_rfc3339(s: &str) -> (res: Result<(i64, u32), chrono::ParseError>)
    ensures
        res matches Ok(p) ==> spec_parse_rfc3339(s@) == Some((p.0 as int, p.1 as int))
            && timestamp_valid(p.0 as int, p.1 as int),
        res is Err ==> spec_parse_rfc3339(s@) is None,
{
    match DateTime::parse_from_rfc3339(s) {
        Ok(d) => Ok((d.timestamp(), d.timestamp_subsec_nanos())),
        Err(e) => Err(e),
    }
}

/// The day number of the date (in UTC) of the instant `secs` seconds after
/// the epoch.
pub open spec fn day_of_secs(secs: int) -> int {
    secs / 86400 + EPOCH_DAY
}

/// Whether the UTC date of the instant is neither chrono's first nor its
/// last date, so that its date in any time zone is one chrono can hold.
pub open spec fn local_in_range(secs: int) -> bool {
    MIN_DAY < day_of_secs(secs) < MAX_DAY
}

/// Whether `off` seconds is an offset from UTC that chrono's `FixedOffset`
/// can hold: less than a day either way.
pub open spec fn zone_offset(off: int) -> bool {
    -86400 < off < 86400
}

/// "YYYY-MM-DD HH:MM" of the instant `secs` seconds after the epoch, seen
/// at `off` seconds from UTC.
pub open spec fn local_clock_text(secs: int, off: int) -> Seq<char> {
    let l = secs + off;
    date_text(day_of_secs(l)) + seq![' '] + two_digits(((l % 86400) / 3600) as nat) + seq![
        ':',
    ] + two_digits(((l % 3600) / 60) as nat)
}

/// Whether `d` is the day number of the instant `secs` seconds after the
/// epoch, seen at some offset from UTC of less than a day.
pub open spec fn local_day_of(secs: int, d: int) -> bool {
    exists|off: int| zone_offset(off) && d == day_of_secs(secs + off)
}

/// Whether `t` is "YYYY-MM-DD HH:MM" of the instant `secs` seconds after
/// the epoch, seen at some offset from UTC of less than a day.
pub open spec fn local_text_of(secs: int, t: Seq<char>) -> bool {
    exists|off: int| zone_offset(off) && t == local_clock_text(secs, off)
}

/// Wraps `with_timezone(&Local).date_naive()` read as a day number. The
/// local time is the UTC time moved by the zone's offset at that instant, a
/// `FixedOffset` of less than a day; which offset depends on the machine's
/// time zone and is not stated. chrono panics where the local date leaves
/// its range, which `local_in_range` rules out.
#[verifier::external_body]
fn chrono_local_day(secs: i64, nanos: u32) -> (res: i32)
    requires
        timestamp_valid(secs as int, nanos as int),
        local_in_range(secs as int),
    ensures
        local_day_of(secs as int, res as int),
{
    DateTime::from_timestamp(secs, nanos).unwrap().with_timezone(&Local).date_naive().num_days_from_ce()
}

/// Wraps `with_timezone(&Local).format("%Y-%m-%d %H:%M").to_string()`.
/// chrono writes "%Y-%m-%d" as `NaiveDate`'s `Display` does, and "%H",
/// "%M" as two digits, of the UTC time moved by the zone's offset (less than
/// a day; which offset is not stated). chrono panics where the local date
/// leaves its range, which `local_in_range` rules out.
#[verifier::external_body]
fn chrono_local_text(secs: i64, nanos: u32) -> (res: String)
    requires
        timestamp_valid(secs as int, nanos as int),
        local_in_range(secs as int),
    ensures
        local_text_of(secs as int, res@),
{
    DateTime::from_timestamp(secs, nanos).unwrap().with_timezone(&Local).format(
        "%Y-%m-%d %H:%M",
    ).to_string()
}

/// An instant in UTC: seconds since 1970-01-01T00:00:00Z and nanoseconds
/// within that second (above 999_999_999 only during a leap second).
#[derive(Clone, Copy, Debug, PartialEq, Eq, Structural)]
pub struct Timestamp {
    secs: i64,
    nanos: u32,
}

impl View for Timestamp {
    type V = (int, int);

    closed spec fn view(&self) -> (int, int) {
        (self.secs as int, self.nanos as int)
    }
}

/// Whether instant `a` comes strictly before instant `b`.
pub open spec fn instant_lt(a: (int, int), b: (int, int)) -> bool {
    a.0 < b.0 || (a.0 == b.0 && a.1 < b.1)
}

/// Euclidean division of `secs` by the length of a day: (day, second of day).
fn floor_div_day(secs: i64) -> (res: (i64, i64))
    ensures
        res.0 == secs as int / 86400,
        res.1 == secs as int % 86400,
{
    if secs >= 0 {
        let u: u64 = secs as u64;
        let q: u64 = u / 86400;
        let r: u64 = u % 86400;
        proof {
            assert(u == 86400 * q + r) by (nonlinear_arith)
                requires
                    q == u / 86400,
                    r == u % 86400,
            ;
            vstd::arithmetic::div_mod::lemma_fundamental_div_mod_converse(
                secs as int,
                86400,
                q as int,
                r as int,
            );
        }
        (q as i64, r as i64)
    } else {
        let u: u64 = (-(secs + 1)) as u64;
        let q: u64 = u / 86400;
        let r: u64 = u % 86400;
        proof {
            assert(u == 86400 * q + r) by (nonlinear_arith)
                requires
                    q == u / 86400,
                    r == u % 86400,
            ;
            assert(secs == 86400 * (-(q as int) - 1) + (86399 - r));
            vstd::arithmetic::div_mod::lemma_fundamental_div_mod_converse(
                secs as int,
                86400,
                -(q as int) - 1,
                86399 - r as int,
            );
        }
        (-(q as i64) - 1, 86399 - r as i64)
    }
}

impl Timestamp {
    #[verifier::type_invariant]
    spec fn valid(self) -> bool {
        timestamp_valid(self.secs as int, self.nanos as int)
    }

    /// The instant from seconds since the epoch and nanoseconds, if chrono
    /// can hold it.
    pub fn from_unix(secs: i64, nanos: u32) -> (res: Option<Timestamp>)
        ensures
            res matches Some(t) ==> t@ == (secs as int, nanos as int),
            res is Some <==> timestamp_valid(secs as int, nanos as int),
    {
        let (days, sod) = floor_div_day(secs);
        if days < -100000000 || days > 100000000 {
            return None;
        }
        let d: i64 = days + EPOCH_DAY;
        let ok_day = MIN_DAY as i64 <= d && d <= MAX_DAY as i64;
        let ok_nanos = nanos < 2000000000 && (nanos < 1000000000 || sod % 60 == 59);
        if ok_day && ok_nanos {
            Some(Timestamp { secs, nanos })
        } else {
            None
        }
    }

    /// Seconds since the epoch.
    pub fn unix_secs(&self) -> (res: i64)
        ensures
            res == self@.0,
    {
        self.secs
    }

    /// Nanoseconds within the second.
    pub fn subsec_nanos(&self) -> (res: u32)
        ensures
            res == self@.1,
    {
        self.nanos
    }

    /// `Utc::now()`.
    pub fn now() -> (res: Timestamp) {
        let (s, n) = chrono_utc_now();
        Timestamp { secs: s, nanos: n }
    }

    /// Whether `self` comes strictly before `other`.
    pub fn before(&self, other: &Timestamp) -> (res: bool)
        ensures
            res == instant_lt(self@, other@),
    {
        self.secs < other.secs || (self.secs == other.secs && self.nanos < other.nanos)
    }

    /// `to_rfc3339()`.
    pub fn to_rfc3339(&self) -> (res: String)
        ensures
            res@ == spec_rfc3339_text(self@.0, self@.1),
            res@.len() > 0,
            FIRST_FOUR_DIGIT_SEC <= self@.0 <= LAST_FOUR_DIGIT_SEC && self@.1 < 1000000000
                ==> spec_parse_rfc3339(res@) == Some(self@),
    {
        proof {
            use_type_invariant(self);
        }
        chrono_rfc3339_text(self.secs, self.nanos)
    }

    /// `DateTime::parse_from_rfc3339(s)` converted to UTC.
    pub fn parse_rfc3339(s: &str) -> (res: Result<Timestamp, chrono::ParseError>)
        ensures
            res matches Ok(t) ==> spec_parse_rfc3339(s@) == Some(t@),
            res is Err <==> spec_parse_rfc3339(s@) is None,
    {
        match chrono_parse_rfc3339(s) {
            Ok(p) => Ok(Timestamp { secs: p.0, nanos: p.1 }),
            Err(e) => Err(e),
        }
    }

    /// The date of this instant in the machine's local time zone: the date
    /// at the instant moved by the zone's offset (less than a day; which one
    /// depends on the machine). `None` for an instant on chrono's first or
    /// last date, where the local date may leave chrono's range.
    pub fn local_date(&self) -> (res: Option<Date>)
        ensures
            local_in_range(self@.0) ==> (res matches Some(d) && local_day_of(self@.0, d@)),
            !local_in_range(self@.0) ==> res is None,
    {
        proof {
            use_type_invariant(self);
        }
        let (days, _sod) = floor_div_day(self.secs);
        if days <= MIN_DAY as i64 - EPOCH_DAY || days >= MAX_DAY as i64 - EPOCH_DAY {
            return None;
        }
        let d = chrono_local_day(self.secs, self.nanos);
        proof {
            let off = choose|off: int| zone_offset(off) && d == day_of_secs(self.secs + off);
            assert(day_of_secs(self.secs + off) <= day_of_secs(self.secs as int) + 1);
            assert(day_of_secs(self.secs + off) >= day_of_secs(self.secs as int) - 1);
        }
        Date::from_day_number(d)
    }
}

/// An instant is determined by its seconds and nanoseconds.
pub proof fn lemma_timestamp_view_injective(a: Timestamp, b: Timestamp)
    requires
        a@ == b@,
    ensures
        a == b,
{
}

/// Format a UTC instant as local "YYYY-MM-DD HH:MM": the instant moved by
/// the machine's offset from UTC (less than a day). chrono panics on an
/// instant on its first or last date, where the local date may leave its
/// range.
pub fn fmt_local_dt(dt: Timestamp) -> (res: String)
    requires
        local_in_range(dt@.0),
    ensures
        local_text_of(dt@.0, res@),
{
    proof {
        use_type_invariant(&dt);
    }
    chrono_local_text(dt.secs, dt.nanos)
}

} // verus!
