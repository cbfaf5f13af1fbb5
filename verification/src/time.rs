//! Parsing the `-t` argument: a positive number of countdown seconds, or a
//! future local clock time in one of the formats `HH:MM`, `HH:MM:SS`,
//! `MM-DD HH:MM`, `MM-DD HH:MM:SS`, `YYYY-MM-DD HH:MM`, `YYYY-MM-DD HH:MM:SS`.
//!
//! Date-time text is parsed by chrono, and chrono maps a local date-time to
//! the instants the machine's time zone gives it; the rest is decided here.
use vstd::prelude::*;
use chrono::{DateTime, Datelike, FixedOffset, Local, LocalResult, NaiveDate, NaiveDateTime, NaiveTime, TimeZone, Timelike};
use crate::text::{
    all_digits, chars_of, dec_int, extend, extend_str, is_digit, parse_i64, parse_i64_chars,
    parse_u64, parse_unsigned_chars, push_dec_i64, string_of, trim, trim_chars,
};

verus! {

/// A date and time of day without a time zone (chrono's `NaiveDateTime`).
#[derive(Debug, Clone, Copy, PartialEq, Eq)]
pub struct NaiveStamp {
    pub year: i32,
    pub month: u32,
    pub day: u32,
    pub hour: u32,
    pub minute: u32,
    pub second: u32,
    /// Nanoseconds; from one second up during a leap second.
    pub nanosecond: u32,
}

/// A time of day (chrono's `NaiveTime`).
#[derive(Debug, Clone, Copy, PartialEq, Eq)]
pub struct TimeOfDay {
    pub hour: u32,
    pub minute: u32,
    pub second: u32,
    pub nanosecond: u32,
}

/// A local date and time with the offset from UTC it has in the local time
/// zone (the values of chrono's `DateTime<Local>`).
#[derive(Debug, Clone, Copy, PartialEq, Eq)]
pub struct LocalDateTime {
    pub date_time: NaiveStamp,
    /// Seconds east of UTC.
    pub offset_secs: i32,
}

/// The length of a timer.
#[derive(Debug, Clone, Copy, PartialEq, Eq)]
pub struct TimerLength {
    pub secs: u64,
    /// Below 1000.
    pub millis: u32,
}

#[derive(Debug, Clone, PartialEq, Eq)]
pub enum ParseTargetError {
    UnsupportedFormat(String),
    InvalidLocalTime(String),
    NotFuture { target: String, now: String },
}

#[derive(Debug, Clone, PartialEq, Eq)]
pub enum TimerArgError {
    Empty,
    NotPositive(String),
    Unparseable(String),
    Target(ParseTargetError),
}

/// What chrono's `LocalResult` holds: the instants a local date-time is.
#[derive(Debug, Clone, Copy, PartialEq, Eq)]
pub enum LocalCandidates {
    Single(LocalDateTime),
    Ambiguous(LocalDateTime, LocalDateTime),
    Missing,
}

// ---------------------------------------------------------------------------
// Validity (the ranges chrono's values keep to)
// ---------------------------------------------------------------------------

pub open spec fn min_year() -> int {
    -262143
}

pub open spec fn max_year() -> int {
    262142
}

pub open spec fn is_leap_year(y: int) -> bool {
    (y % 4 == 0 && y % 100 != 0) || y % 400 == 0
}

pub open spec fn days_in_month(y: int, m: int) -> int {
    if m == 2 {
        if is_leap_year(y) {
            29
        } else {
            28
        }
    } else if m == 4 || m == 6 || m == 9 || m == 11 {
        30
    } else {
        31
    }
}

pub open spec fn time_valid(hour: u32, minute: u32, second: u32, nanosecond: u32) -> bool {
    &&& hour < 24
    &&& minute < 60
    &&& second < 60
    &&& nanosecond < 2_000_000_000
    &&& (nanosecond >= 1_000_000_000 ==> second == 59)
}

impl TimeOfDay {
    pub open spec fn wf(self) -> bool {
        time_valid(self.hour, self.minute, self.second, self.nanosecond)
    }
}

impl NaiveStamp {
    pub open spec fn wf(self) -> bool {
        &&& min_year() <= self.year <= max_year()
        &&& 1 <= self.month <= 12
        &&& 1 <= self.day <= days_in_month(self.year as int, self.month as int)
        &&& time_valid(self.hour, self.minute, self.second, self.nanosecond)
    }

    pub open spec fn second_of_day(self) -> int {
        self.hour * 3600 + self.minute * 60 + self.second
    }
}

impl LocalDateTime {
    /// A valid date-time with an offset below a day whose UTC date-time is
    /// within chrono's range.
    pub open spec fn wf(self) -> bool {
        let d = self.date_time;
        let utc_second = d.second_of_day() - self.offset_secs;
        &&& d.wf()
        &&& -86400 < self.offset_secs < 86400
        &&& (d.year == max_year() && d.month == 12 && d.day == 31 ==> utc_second < 86400)
        &&& (d.year == min_year() && d.month == 1 && d.day == 1 ==> utc_second >= 0)
    }
}

pub open spec fn candidates_wf(c: LocalCandidates, naive: NaiveStamp) -> bool {
    match c {
        LocalCandidates::Single(t) => t.wf() && t.date_time == naive,
        LocalCandidates::Ambiguous(a, b) => a.wf() && a.date_time == naive && b.wf()
            && b.date_time == naive,
        LocalCandidates::Missing => true,
    }
}

fn days_in_month_exec(y: i32, m: u32) -> (d: u32)
    requires
        1 <= m <= 12,
    ensures
        d == days_in_month(y as int, m as int),
{
    if m == 2 {
        if (y % 4 == 0 && y % 100 != 0) || y % 400 == 0 {
            29
        } else {
            28
        }
    } else if m == 4 || m == 6 || m == 9 || m == 11 {
        30
    } else {
        31
    }
}

impl LocalDateTime {
    /// The date-time with the given local fields and offset, if valid.
    pub fn new(
        year: i32,
        month: u32,
        day: u32,
        hour: u32,
        minute: u32,
        second: u32,
        nanosecond: u32,
        offset_secs: i32,
    ) -> (r: Option<LocalDateTime>)
        ensures
            ({
                let t = LocalDateTime {
                    date_time: NaiveStamp { year, month, day, hour, minute, second, nanosecond },
                    offset_secs,
                };
                match r {
                    Some(v) => v == t && t.wf(),
                    None => !t.wf(),
                }
            }),
    {
        let t = LocalDateTime {
            date_time: NaiveStamp { year, month, day, hour, minute, second, nanosecond },
            offset_secs,
        };
        if year < -262143 || year > 262142 || month < 1 || month > 12 {
            return None;
        }
        if day < 1 || day > days_in_month_exec(year, month) {
            return None;
        }
        if hour >= 24 || minute >= 60 || second >= 60 || nanosecond >= 2_000_000_000 || (nanosecond
            >= 1_000_000_000 && second != 59) {
            return None;
        }
        if offset_secs <= -86400 || offset_secs >= 86400 {
            return None;
        }
        let sod: i64 = hour as i64 * 3600 + minute as i64 * 60 + second as i64;
        let utc_second = sod - offset_secs as i64;
        if year == 262142 && month == 12 && day == 31 && utc_second >= 86400 {
            return None;
        }
        if year == -262143 && month == 1 && day == 1 && utc_second < 0 {
            return None;
        }
        Some(t)
    }
}

// ---------------------------------------------------------------------------
// chrono
// ---------------------------------------------------------------------------

/// What `NaiveDateTime::parse_from_str(input, fmt)` gives.
pub uninterp spec fn chrono_parse_date_time(input: Seq<char>, fmt: Seq<char>) -> Option<NaiveStamp>;

/// What `NaiveTime::parse_from_str(input, fmt)` gives.
pub uninterp spec fn chrono_parse_time(input: Seq<char>, fmt: Seq<char>) -> Option<TimeOfDay>;

/// Days from 1970-01-01 to a date of the proleptic Gregorian calendar.
pub open spec fn days_from_civil(year: int, month: int, day: int) -> int {
    let y = if month <= 2 {
        year - 1
    } else {
        year
    };
    let era = y / 400;
    let yoe = y - era * 400;
    let mp = if month > 2 {
        month - 3
    } else {
        month + 9
    };
    let doy = (153 * mp + 2) / 5 + day - 1;
    let doe = yoe * 365 + yoe / 4 - yoe / 100 + doy;
    era * 146097 + doe - 719468
}

/// Seconds from 1970-01-01T00:00:00Z to the whole second of the instant.
pub open spec fn utc_second(t: LocalDateTime) -> int {
    days_from_civil(t.date_time.year as int, t.date_time.month as int, t.date_time.day as int)
        * 86400 + t.date_time.second_of_day() - t.offset_secs
}

/// The first instant is the later one: by UTC second, then by nanosecond
/// (during a leap second the nanoseconds run past one second).
pub open spec fn instant_after(a: LocalDateTime, b: LocalDateTime) -> bool {
    ||| utc_second(a) > utc_second(b)
    ||| utc_second(a) == utc_second(b) && a.date_time.nanosecond > b.date_time.nanosecond
}

/// `a.signed_duration_since(b).num_milliseconds()` in chrono.
pub uninterp spec fn chrono_millis_since(a: LocalDateTime, b: LocalDateTime) -> i64;

/// `DateTime::to_rfc3339` in chrono.
pub uninterp spec fn chrono_rfc3339(t: LocalDateTime) -> Seq<char>;

/// Calls `NaiveDateTime::parse_from_str`.  Claims that the result is named
/// by the input and format alone, and that a parsed value is a valid date
/// and time (the only values a `NaiveDateTime` holds).
#[verifier::external_body]
fn parse_date_time(input: &str, fmt: &str) -> (r: Option<NaiveStamp>)
    ensures
        r == chrono_parse_date_time(input@, fmt@),
        r matches Some(n) ==> n.wf(),
{
    NaiveDateTime::parse_from_str(input, fmt).ok().map(|n| NaiveStamp {
        year: n.year(),
        month: n.month(),
        day: n.day(),
        hour: n.hour(),
        minute: n.minute(),
        second: n.second(),
        nanosecond: n.nanosecond(),
    })
}

/// Calls `NaiveTime::parse_from_str`.  Claims that the result is named by
/// the input and format alone, and that a parsed value is a valid time.
#[verifier::external_body]
fn parse_time_of_day(input: &str, fmt: &str) -> (r: Option<TimeOfDay>)
    ensures
        r == chrono_parse_time(input@, fmt@),
        r matches Some(t) ==> t.wf(),
{
    NaiveTime::parse_from_str(input, fmt).ok().map(|t| TimeOfDay {
        hour: t.hour(),
        minute: t.minute(),
        second: t.second(),
        nanosecond: t.nanosecond(),
    })
}

/// Calls `Local.from_local_datetime`, which depends on the machine's time
/// zone: nothing is claimed of which candidates come back, only that each is
/// a valid instant whose local date-time is the one asked for (chrono builds
/// each candidate by subtracting its offset from the local date-time, and
/// gives none where that leaves its range).
#[verifier::external_body]
fn local_candidates(naive: NaiveStamp) -> (r: LocalCandidates)
    requires
        naive.wf(),
    ensures
        candidates_wf(r, naive),
{
    let n = NaiveDate::from_ymd_opt(naive.year, naive.month, naive.day).unwrap().and_hms_nano_opt(
        naive.hour, naive.minute, naive.second, naive.nanosecond).unwrap();
    let conv = |t: DateTime<Local>| LocalDateTime {
        date_time: NaiveStamp { year: t.year(), month: t.month(), day: t.day(), hour: t.hour(),
            minute: t.minute(), second: t.second(), nanosecond: t.nanosecond() },
        offset_secs: t.offset().local_minus_utc(),
    };
    match Local.from_local_datetime(&n).map(conv) {
        LocalResult::Single(t) => LocalCandidates::Single(t),
        LocalResult::Ambiguous(a, b) => LocalCandidates::Ambiguous(a, b),
        LocalResult::None => LocalCandidates::Missing,
    }
}

/// Calls `DateTime::gt` on the two instants (rebuilt with their offsets).
/// chrono compares the UTC date-times, date first, then second of the day,
/// then the fraction; the contract states that order over `utc_second`.
#[verifier::external_body]
fn is_after(a: LocalDateTime, b: LocalDateTime) -> (r: bool)
    requires
        a.wf(),
        b.wf(),
    ensures
        r == instant_after(a, b),
{
    let conv = |t: LocalDateTime| FixedOffset::east_opt(t.offset_secs).unwrap().from_local_datetime(
        &NaiveDate::from_ymd_opt(t.date_time.year, t.date_time.month, t.date_time.day).unwrap()
            .and_hms_nano_opt(t.date_time.hour, t.date_time.minute, t.date_time.second,
            t.date_time.nanosecond).unwrap()).unwrap();
    conv(a) > conv(b)
}

/// Nanoseconds from 1970-01-01T00:00:00Z to the instant.
pub open spec fn utc_nanos(t: LocalDateTime) -> int {
    utc_second(t) * 1_000_000_000 + t.date_time.nanosecond
}

/// `x / d` rounded toward zero, as Rust's integer division does.
pub open spec fn div_toward_zero(x: int, d: int) -> int {
    if x >= 0 {
        x / d
    } else {
        -((-x) / d)
    }
}

/// Calls `DateTime::signed_duration_since` and `TimeDelta::num_milliseconds`.
/// Outside a leap second chrono's difference is that of the two UTC
/// instants, and `num_milliseconds` cuts it toward zero; the contract
/// states that much and only names the result during a leap second, where
/// chrono counts the leap second in its own way.
#[verifier::external_body]
fn millis_since(a: LocalDateTime, b: LocalDateTime) -> (r: i64)
    requires
        a.wf(),
        b.wf(),
    ensures
        r == chrono_millis_since(a, b),
        a.date_time.nanosecond < 1_000_000_000 && b.date_time.nanosecond < 1_000_000_000 ==> r
            == div_toward_zero(utc_nanos(a) - utc_nanos(b), 1_000_000),
{
    let conv = |t: LocalDateTime| FixedOffset::east_opt(t.offset_secs).unwrap().from_local_datetime(
        &NaiveDate::from_ymd_opt(t.date_time.year, t.date_time.month, t.date_time.day).unwrap()
            .and_hms_nano_opt(t.date_time.hour, t.date_time.minute, t.date_time.second,
            t.date_time.nanosecond).unwrap()).unwrap();
    conv(a).signed_duration_since(conv(b)).num_milliseconds()
}

/// Calls `DateTime::to_rfc3339`.
#[verifier::external_body]
fn rfc3339(t: LocalDateTime) -> (r: String)
    requires
        t.wf(),
    ensures
        r@ == chrono_rfc3339(t),
{
    FixedOffset::east_opt(t.offset_secs).unwrap().from_local_datetime(
        &NaiveDate::from_ymd_opt(t.date_time.year, t.date_time.month, t.date_time.day).unwrap()
            .and_hms_nano_opt(t.date_time.hour, t.date_time.minute, t.date_time.second,
            t.date_time.nanosecond).unwrap()).unwrap().to_rfc3339()
}

// ---------------------------------------------------------------------------
// The decisions, stated over the models
// ---------------------------------------------------------------------------

pub enum TargetErrorModel {
    UnsupportedFormat(Seq<char>),
    InvalidLocalTime(Seq<char>),
    NotFuture { target: Seq<char>, now: Seq<char> },
}

pub enum TimerErrorModel {
    Empty,
    NotPositive(Seq<char>),
    Unparseable(Seq<char>),
    Target(TargetErrorModel),
}

impl View for ParseTargetError {
    type V = TargetErrorModel;

    open spec fn view(&self) -> TargetErrorModel {
        match self {
            ParseTargetError::UnsupportedFormat(s) => TargetErrorModel::UnsupportedFormat(s@),
            ParseTargetError::InvalidLocalTime(s) => TargetErrorModel::InvalidLocalTime(s@),
            ParseTargetError::NotFuture { target, now } => TargetErrorModel::NotFuture {
                target: target@,
                now: now@,
            },
        }
    }
}

impl View for TimerArgError {
    type V = TimerErrorModel;

    open spec fn view(&self) -> TimerErrorModel {
        match self {
            TimerArgError::Empty => TimerErrorModel::Empty,
            TimerArgError::NotPositive(s) => TimerErrorModel::NotPositive(s@),
            TimerArgError::Unparseable(s) => TimerErrorModel::Unparseable(s@),
            TimerArgError::Target(e) => TimerErrorModel::Target(e@),
        }
    }
}

pub open spec fn target_outcome(r: Result<LocalDateTime, ParseTargetError>) -> Result<
    LocalDateTime,
    TargetErrorModel,
> {
    match r {
        Ok(t) => Ok(t),
        Err(e) => Err(e@),
    }
}

pub open spec fn timer_outcome(r: Result<TimerLength, TimerArgError>) -> Result<
    TimerLength,
    TimerErrorModel,
> {
    match r {
        Ok(t) => Ok(t),
        Err(e) => Err(e@),
    }
}

pub open spec fn full_second_format() -> Seq<char> {
    "%Y-%m-%d %H:%M:%S"@
}

pub open spec fn full_minute_format() -> Seq<char> {
    "%Y-%m-%d %H:%M"@
}

/// `now`'s date at the given time of day.
pub open spec fn on_date(now: LocalDateTime, t: TimeOfDay) -> NaiveStamp {
    NaiveStamp {
        year: now.date_time.year,
        month: now.date_time.month,
        day: now.date_time.day,
        hour: t.hour,
        minute: t.minute,
        second: t.second,
        nanosecond: t.nanosecond,
    }
}

/// The local date-time the text names: a full date first, then a month and
/// day in `now`'s year, then a time of day on `now`'s date; seconds are
/// tried before minutes each time.
pub open spec fn naive_target(input: Seq<char>, now: LocalDateTime) -> Option<NaiveStamp> {
    let with_year = dec_int(now.date_time.year as int) + "-"@ + input;
    if let Some(n) = chrono_parse_date_time(input, full_second_format()) {
        Some(n)
    } else if let Some(n) = chrono_parse_date_time(input, full_minute_format()) {
        Some(n)
    } else if let Some(n) = chrono_parse_date_time(with_year, full_second_format()) {
        Some(n)
    } else if let Some(n) = chrono_parse_date_time(with_year, full_minute_format()) {
        Some(n)
    } else if let Some(t) = chrono_parse_time(input, "%H:%M:%S"@) {
        Some(on_date(now, t))
    } else if let Some(t) = chrono_parse_time(input, "%H:%M"@) {
        Some(on_date(now, t))
    } else {
        None
    }
}

/// The instant chosen among the candidates: an ambiguous time (clocks set
/// back) takes the earlier instant if it is still ahead of `now`.
pub open spec fn pick_spec(input: Seq<char>, c: LocalCandidates, now: LocalDateTime) -> Result<
    LocalDateTime,
    TargetErrorModel,
> {
    match c {
        LocalCandidates::Single(t) => Ok(t),
        LocalCandidates::Ambiguous(earliest, latest) => if instant_after(earliest, now) {
            Ok(earliest)
        } else {
            Ok(latest)
        },
        LocalCandidates::Missing => Err(TargetErrorModel::InvalidLocalTime(input)),
    }
}

/// A target that is not later than `now` is refused.
pub open spec fn future_spec(r: Result<LocalDateTime, TargetErrorModel>, now: LocalDateTime) -> Result<
    LocalDateTime,
    TargetErrorModel,
> {
    match r {
        Ok(t) => if instant_after(t, now) {
            Ok(t)
        } else {
            Err(
                TargetErrorModel::NotFuture {
                    target: chrono_rfc3339(t),
                    now: chrono_rfc3339(now),
                },
            )
        },
        Err(e) => Err(e),
    }
}

/// The outcomes `parse_target_time` may have for a text and `now`, whatever
/// instants the time zone gives the named local date-time.
pub open spec fn target_outcomes(input: Seq<char>, now: LocalDateTime, r: Result<
    LocalDateTime,
    TargetErrorModel,
>) -> bool {
    let t = trim(input);
    match naive_target(t, now) {
        None => r == Err::<LocalDateTime, TargetErrorModel>(TargetErrorModel::UnsupportedFormat(t)),
        Some(naive) => exists|c: LocalCandidates|
            candidates_wf(c, naive) && r == future_spec(#[trigger] pick_spec(t, c, now), now),
    }
}

pub open spec fn from_millis(ms: nat) -> TimerLength {
    TimerLength { secs: (ms / 1000) as u64, millis: (ms % 1000) as u32 }
}

/// The milliseconds from `now` to `t` as chrono counts them: outside a
/// leap second the difference of the two instants, cut toward zero; during
/// one, chrono's own count.
pub open spec fn millis_between(t: LocalDateTime, now: LocalDateTime) -> int {
    if t.date_time.nanosecond < 1_000_000_000 && now.date_time.nanosecond < 1_000_000_000 {
        div_toward_zero(utc_nanos(t) - utc_nanos(now), 1_000_000)
    } else {
        chrono_millis_since(t, now) as int
    }
}

/// A timer of `ms` milliseconds, at least one.
pub open spec fn clamped_length(ms: int) -> TimerLength {
    from_millis(
        if ms >= 1 {
            ms as nat
        } else {
            1
        },
    )
}

/// The countdown to a target: the milliseconds to it, at least one.
pub open spec fn countdown_spec(r: Result<LocalDateTime, TargetErrorModel>, now: LocalDateTime) -> Result<
    TimerLength,
    TimerErrorModel,
> {
    match r {
        Ok(t) => Ok(clamped_length(millis_between(t, now))),
        Err(e) => Err(TimerErrorModel::Target(e)),
    }
}

pub open spec fn is_countdown(t: Seq<char>) -> bool {
    all_digits(t)
}

/// The outcomes `parse_timer_arg` may have: digits alone are countdown
/// seconds (zero refused), a nonpositive integer is refused, and anything
/// else must name a future time.
pub open spec fn timer_outcomes(value: Seq<char>, now: LocalDateTime, r: Result<
    TimerLength,
    TimerErrorModel,
>) -> bool {
    let t = trim(value);
    if t.len() == 0 {
        r == Err::<TimerLength, TimerErrorModel>(TimerErrorModel::Empty)
    } else if is_countdown(t) {
        r == match parse_u64(t) {
            None => Err(TimerErrorModel::Unparseable(t)),
            Some(secs) => if secs == 0 {
                Err(TimerErrorModel::NotPositive(t))
            } else {
                Ok(TimerLength { secs, millis: 0 })
            },
        }
    } else if parse_i64(t) matches Some(n) && n <= 0 {
        r == Err::<TimerLength, TimerErrorModel>(TimerErrorModel::NotPositive(t))
    } else {
        exists|tr: Result<LocalDateTime, TargetErrorModel>|
            target_outcomes(t, now, tr) && r == #[trigger] countdown_spec(tr, now)
    }
}

// ---------------------------------------------------------------------------
// Executable
// ---------------------------------------------------------------------------

pub open spec fn target_message(e: TargetErrorModel) -> Seq<char> {
    match e {
        TargetErrorModel::UnsupportedFormat(s) => "unsupported time format: "@ + s,
        TargetErrorModel::InvalidLocalTime(s) => "not a valid local time: "@ + s,
        TargetErrorModel::NotFuture { target, now } => "target time must be later than now: "@
            + target + " <= "@ + now,
    }
}

pub open spec fn timer_message(e: TimerErrorModel) -> Seq<char> {
    match e {
        TimerErrorModel::Empty => "-t requires a value"@,
        TimerErrorModel::NotPositive(v) => "-t countdown seconds must be greater than 0: "@ + v,
        TimerErrorModel::Unparseable(v) => "-t value is not a valid number: "@ + v,
        TimerErrorModel::Target(t) => target_message(t),
    }
}

impl ParseTargetError {
    /// The human-readable message.
    pub fn message(&self) -> (r: String)
        ensures
            r@ == target_message(self@),
    {
        let mut out: Vec<char> = Vec::new();
        match self {
            ParseTargetError::UnsupportedFormat(s) => {
                extend_str(&mut out, "unsupported time format: ");
                extend_str(&mut out, s.as_str());
            },
            ParseTargetError::InvalidLocalTime(s) => {
                extend_str(&mut out, "not a valid local time: ");
                extend_str(&mut out, s.as_str());
            },
            ParseTargetError::NotFuture { target, now } => {
                extend_str(&mut out, "target time must be later than now: ");
                extend_str(&mut out, target.as_str());
                extend_str(&mut out, " <= ");
                extend_str(&mut out, now.as_str());
            },
        }
        string_of(&out)
    }
}

impl TimerArgError {
    /// The human-readable message.
    pub fn message(&self) -> (r: String)
        ensures
            r@ == timer_message(self@),
    {
        match self {
            TimerArgError::Empty => {
                let v = chars_of("-t requires a value");
                string_of(&v)
            },
            TimerArgError::NotPositive(s) => {
                let mut out = chars_of("-t countdown seconds must be greater than 0: ");
                extend_str(&mut out, s.as_str());
                string_of(&out)
            },
            TimerArgError::Unparseable(s) => {
                let mut out = chars_of("-t value is not a valid number: ");
                extend_str(&mut out, s.as_str());
                string_of(&out)
            },
            TimerArgError::Target(e) => e.message(),
        }
    }
}

fn parse_naive_target(input: &Vec<char>, now: LocalDateTime) -> (r: Option<NaiveStamp>)
    requires
        now.wf(),
    ensures
        r == naive_target(input@, now),
        r matches Some(n) ==> n.wf(),
{
    let s = string_of(input);
    if let Some(v) = parse_date_time(s.as_str(), "%Y-%m-%d %H:%M:%S") {
        return Some(v);
    }
    if let Some(v) = parse_date_time(s.as_str(), "%Y-%m-%d %H:%M") {
        return Some(v);
    }
    let mut with_year: Vec<char> = Vec::new();
    push_dec_i64(&mut with_year, now.date_time.year as i64);
    extend_str(&mut with_year, "-");
    extend(&mut with_year, input);
    let with_year = string_of(&with_year);
    if let Some(v) = parse_date_time(with_year.as_str(), "%Y-%m-%d %H:%M:%S") {
        return Some(v);
    }
    if let Some(v) = parse_date_time(with_year.as_str(), "%Y-%m-%d %H:%M") {
        return Some(v);
    }
    let d = now.date_time;
    if let Some(t) = parse_time_of_day(s.as_str(), "%H:%M:%S") {
        return Some(
            NaiveStamp {
                year: d.year,
                month: d.month,
                day: d.day,
                hour: t.hour,
                minute: t.minute,
                second: t.second,
                nanosecond: t.nanosecond,
            },
        );
    }
    if let Some(t) = parse_time_of_day(s.as_str(), "%H:%M") {
        return Some(
            NaiveStamp {
                year: d.year,
                month: d.month,
                day: d.day,
                hour: t.hour,
                minute: t.minute,
                second: t.second,
                nanosecond: t.nanosecond,
            },
        );
    }
    None
}

/// Chooses the target among the instants the time zone gives a local
/// date-time.
pub fn pick_candidate(input: &str, candidates: LocalCandidates, now: LocalDateTime) -> (r: Result<
    LocalDateTime,
    ParseTargetError,
>)
    requires
        now.wf(),
        candidates matches LocalCandidates::Ambiguous(a, b) ==> a.wf(),
    ensures
        target_outcome(r) == pick_spec(input@, candidates, now),
{
    match candidates {
        LocalCandidates::Single(t) => Ok(t),
        LocalCandidates::Ambiguous(earliest, latest) => {
            if is_after(earliest, now) {
                Ok(earliest)
            } else {
                Ok(latest)
            }
        },
        LocalCandidates::Missing => {
            let v = chars_of(input);
            Err(ParseTargetError::InvalidLocalTime(string_of(&v)))
        },
    }
}

/// Refuses a target that is not later than `now`.
pub fn require_future(r: Result<LocalDateTime, ParseTargetError>, now: LocalDateTime) -> (out: Result<
    LocalDateTime,
    ParseTargetError,
>)
    requires
        now.wf(),
        r matches Ok(t) ==> t.wf(),
    ensures
        target_outcome(out) == future_spec(target_outcome(r), now),
{
    match r {
        Ok(target) => {
            if is_after(target, now) {
                Ok(target)
            } else {
                Err(ParseTargetError::NotFuture { target: rfc3339(target), now: rfc3339(now) })
            }
        },
        Err(e) => Err(e),
    }
}

fn resolve_local_time(input: &str, naive: NaiveStamp, now: LocalDateTime) -> (r: Result<
    LocalDateTime,
    ParseTargetError,
>)
    requires
        naive.wf(),
        now.wf(),
    ensures
        exists|c: LocalCandidates|
            candidates_wf(c, naive) && target_outcome(r) == #[trigger] pick_spec(input@, c, now),
        r matches Ok(t) ==> t.wf(),
{
    let c = local_candidates(naive);
    pick_candidate(input, c, now)
}

/// The future local time the text names.
pub fn parse_target_time(input: &str, now: LocalDateTime) -> (r: Result<
    LocalDateTime,
    ParseTargetError,
>)
    requires
        now.wf(),
    ensures
        target_outcomes(input@, now, target_outcome(r)),
        r matches Ok(t) ==> t.wf() && instant_after(t, now),
        forall|n: NaiveStamp|
            #[trigger] full_date_reading(trim(input@), n) ==> !(r matches Err(
                ParseTargetError::UnsupportedFormat(_),
            )) && (r matches Ok(x) ==> x.date_time == n),
{
    let v = chars_of(input);
    let t = trim_chars(&v);
    let ts = string_of(&t);
    let r = match parse_naive_target(&t, now) {
        None => Err(ParseTargetError::UnsupportedFormat(string_of(&t))),
        Some(naive) => {
            let picked = resolve_local_time(ts.as_str(), naive, now);
            let r = require_future(picked, now);
            proof {
                let c = choose|c: LocalCandidates|
                    candidates_wf(c, naive) && target_outcome(picked) == #[trigger] pick_spec(
                        ts@,
                        c,
                        now,
                    );
                assert(target_outcome(r) == future_spec(pick_spec(ts@, c, now), now));
            }
            r
        },
    };
    proof {
        assert forall|n: NaiveStamp| #[trigger] full_date_reading(trim(input@), n) implies !(
        r matches Err(ParseTargetError::UnsupportedFormat(_))) && (r matches Ok(x) ==> x.date_time
            == n) by {
            law_full_date_is_taken(input@, now, n);
        }
    }
    r
}

fn all_ascii_digits(v: &Vec<char>) -> (r: bool)
    ensures
        r == all_digits(v@),
{
    let mut i: usize = 0;
    while i < v.len()
        invariant
            i <= v.len(),
            forall|j: int| 0 <= j < i ==> is_digit(#[trigger] v@[j]),
        decreases v.len() - i,
    {
        if !('0' <= v[i] && v[i] <= '9') {
            assert(!is_digit(v@[i as int]));
            return false;
        }
        i = i + 1;
    }
    true
}

/// A timer of `ms` milliseconds, at least one: whole seconds and the
/// milliseconds left over.
pub fn timer_length(ms: i64) -> (t: TimerLength)
    ensures
        t == clamped_length(ms as int),
{
    let ms: u64 = if ms >= 1 {
        ms as u64
    } else {
        1
    };
    TimerLength { secs: ms / 1000, millis: (ms % 1000) as u32 }
}

/// The countdown to a parsed target, or the target's error.
pub fn countdown_to(target: Result<LocalDateTime, ParseTargetError>, now: LocalDateTime) -> (r: Result<
    TimerLength,
    TimerArgError,
>)
    requires
        now.wf(),
        target matches Ok(t) ==> t.wf(),
    ensures
        timer_outcome(r) == countdown_spec(target_outcome(target), now),
{
    match target {
        Ok(t) => {
            let ms = millis_since(t, now);
            assert(millis_between(t, now) == ms as int);
            Ok(timer_length(ms))
        },
        Err(e) => Err(TimerArgError::Target(e)),
    }
}

/// Classifies the `-t` value: countdown seconds, or a future clock time.
pub fn parse_timer_arg(value: &str, now: LocalDateTime) -> (r: Result<TimerLength, TimerArgError>)
    requires
        now.wf(),
    ensures
        timer_outcomes(value@, now, timer_outcome(r)),
{
    let v = chars_of(value);
    let trimmed = trim_chars(&v);
    if trimmed.len() == 0 {
        return Err(TimerArgError::Empty);
    }
    if all_ascii_digits(&trimmed) {
        assert(trimmed@[0] != '+') by {
            assert(is_digit(trimmed@[0]));
        }
        return match parse_unsigned_chars(&trimmed, u64::MAX) {
            None => Err(TimerArgError::Unparseable(string_of(&trimmed))),
            Some(secs) => {
                if secs == 0 {
                    Err(TimerArgError::NotPositive(string_of(&trimmed)))
                } else {
                    Ok(TimerLength { secs, millis: 0 })
                }
            },
        };
    }
    if let Some(n) = parse_i64_chars(&trimmed) {
        if n <= 0 {
            return Err(TimerArgError::NotPositive(string_of(&trimmed)));
        }
    }
    let ts = string_of(&trimmed);
    let target = parse_target_time(ts.as_str(), now);
    let r = countdown_to(target, now);
    proof {
        assert(trim(trimmed@) == trim(v@)) by {
            lemma_trim_idempotent(v@);
        }
    }
    r
}

/// The text names a time of day: none of the date formats parse it, one of
/// the time formats does.
pub open spec fn is_time_of_day(t: Seq<char>, now: LocalDateTime) -> bool {
    let with_year = dec_int(now.date_time.year as int) + "-"@ + t;
    &&& chrono_parse_date_time(t, full_second_format()) is None
    &&& chrono_parse_date_time(t, full_minute_format()) is None
    &&& chrono_parse_date_time(with_year, full_second_format()) is None
    &&& chrono_parse_date_time(with_year, full_minute_format()) is None
    &&& (chrono_parse_time(t, "%H:%M:%S"@) is Some || chrono_parse_time(t, "%H:%M"@) is Some)
}

/// A time of day names today: whatever instants the time zone gives it, a
/// target found for it is the named local date-time, on `now`'s date, and
/// later than `now`.
pub proof fn law_time_of_day_is_today(input: Seq<char>, now: LocalDateTime, target: LocalDateTime)
    requires
        is_time_of_day(trim(input), now),
        target_outcomes(input, now, Ok(target)),
    ensures
        target.date_time == naive_target(trim(input), now)->0,
        target.date_time.year == now.date_time.year,
        target.date_time.month == now.date_time.month,
        target.date_time.day == now.date_time.day,
        instant_after(target, now),
{
    let t = trim(input);
    let naive = naive_target(t, now)->0;
    let c = choose|c: LocalCandidates|
        candidates_wf(c, naive) && Ok::<LocalDateTime, TargetErrorModel>(target) == future_spec(
            #[trigger] pick_spec(t, c, now),
            now,
        );
    assert(candidates_wf(c, naive));
}

/// chrono reads the text as a full date and time, seconds first: the
/// local date-time it gives.
pub open spec fn full_date_reading(t: Seq<char>, n: NaiveStamp) -> bool {
    ||| chrono_parse_date_time(t, full_second_format()) == Some(n)
    ||| chrono_parse_date_time(t, full_second_format()) is None && chrono_parse_date_time(
        t,
        full_minute_format(),
    ) == Some(n)
}

/// A full date and time is taken as it reads, in any year: the target is
/// never refused as unsupported, a target found is that local date-time,
/// and any instant of it that the time zone may give and that lies after
/// `now` is a possible target, with the countdown to it.
pub proof fn law_full_date_is_taken(input: Seq<char>, now: LocalDateTime, n: NaiveStamp)
    requires
        full_date_reading(trim(input), n),
    ensures
        naive_target(trim(input), now) == Some(n),
        forall|r: Result<LocalDateTime, TargetErrorModel>|
            #[trigger] target_outcomes(input, now, r) ==> !(r matches Err(
                TargetErrorModel::UnsupportedFormat(_),
            )) && (r matches Ok(t) ==> t.date_time == n),
        forall|t: LocalDateTime|
            t.wf() && t.date_time == n && instant_after(t, now) ==> #[trigger] target_outcomes(
                input,
                now,
                Ok(t),
            ),
{
    let tr = trim(input);
    assert forall|r: Result<LocalDateTime, TargetErrorModel>|
        #[trigger] target_outcomes(input, now, r) implies !(r matches Err(
            TargetErrorModel::UnsupportedFormat(_),
        )) && (r matches Ok(t) ==> t.date_time == n) by {
        let c = choose|c: LocalCandidates|
            candidates_wf(c, n) && r == future_spec(#[trigger] pick_spec(tr, c, now), now);
        assert(candidates_wf(c, n));
    }
    assert forall|t: LocalDateTime|
        t.wf() && t.date_time == n && instant_after(t, now) implies #[trigger] target_outcomes(
            input,
            now,
            Ok(t),
        ) by {
        let c = LocalCandidates::Single(t);
        assert(candidates_wf(c, n));
        assert(pick_spec(tr, c, now) == Ok::<LocalDateTime, TargetErrorModel>(t));
    }
}

/// The `-t` value reads as a full date and time, in any year: a target
/// after `now` that the time zone gives it yields a timer running until
/// that target.
pub proof fn law_full_date_timer(value: Seq<char>, now: LocalDateTime, n: NaiveStamp, t: LocalDateTime)
    requires
        full_date_reading(trim(value), n),
        trim(value).len() > 0,
        !is_countdown(trim(value)),
        !(parse_i64(trim(value)) matches Some(k) && k <= 0),
        t.wf(),
        t.date_time == n,
        instant_after(t, now),
    ensures
        timer_outcomes(value, now, Ok(clamped_length(millis_between(t, now)))),
{
    let tr = trim(value);
    lemma_trim_idempotent(value);
    law_full_date_is_taken(tr, now, n);
    assert(target_outcomes(tr, now, Ok(t)));
    assert(countdown_spec(Ok(t), now) == Ok::<TimerLength, TimerErrorModel>(
        clamped_length(millis_between(t, now)),
    ));
}

proof fn lemma_trim_idempotent(s: Seq<char>)
    ensures
        trim(trim(s)) == trim(s),
{
    crate::text::lemma_trim_trim(s);
}

} // verus!
