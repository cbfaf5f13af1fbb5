use chrono::{Datelike, Local, TimeZone, Timelike};
use espresso::time::{
    countdown_to, timer_length, parse_target_time, parse_timer_arg, LocalDateTime, ParseTargetError, TimerArgError, TimerLength,
};
use std::time::Duration;

fn local(year: i32, month: u32, day: u32, hour: u32, minute: u32, second: u32) -> LocalDateTime {
    let t = Local
        .with_ymd_and_hms(year, month, day, hour, minute, second)
        .single()
        .expect("test time must be a valid local time");
    LocalDateTime::new(
        t.year(),
        t.month(),
        t.day(),
        t.hour(),
        t.minute(),
        t.second(),
        t.nanosecond(),
        t.offset().local_minus_utc(),
    )
    .expect("chrono's values are valid")
}

fn assert_components(
    actual: LocalDateTime,
    year: i32,
    month: u32,
    day: u32,
    hour: u32,
    minute: u32,
    second: u32,
) {
    assert_eq!(actual.date_time.year, year);
    assert_eq!(actual.date_time.month, month);
    assert_eq!(actual.date_time.day, day);
    assert_eq!(actual.date_time.hour, hour);
    assert_eq!(actual.date_time.minute, minute);
    assert_eq!(actual.date_time.second, second);
}

fn as_duration(t: TimerLength) -> Duration {
    Duration::from_secs(t.secs) + Duration::from_millis(t.millis as u64)
}

fn now() -> LocalDateTime {
    local(2026, 7, 11, 12, 0, 0)
}

#[test]
fn parses_hour_minute_as_today() {
    let now = local(2026, 7, 7, 9, 30, 0);

    let target = parse_target_time("10:05", now).unwrap();

    assert_components(target, 2026, 7, 7, 10, 5, 0);
}

#[test]
fn parses_hour_minute_second_as_today() {
    let now = local(2026, 7, 7, 9, 30, 0);

    let target = parse_target_time("10:05:45", now).unwrap();

    assert_components(target, 2026, 7, 7, 10, 5, 45);
}

#[test]
fn parses_month_day_with_current_year() {
    let now = local(2026, 7, 7, 9, 30, 0);

    let target = parse_target_time("07-08 01:02", now).unwrap();

    assert_components(target, 2026, 7, 8, 1, 2, 0);
}

#[test]
fn parses_month_day_with_seconds_and_current_year() {
    let now = local(2026, 7, 7, 9, 30, 0);

    let target = parse_target_time("07-08 01:02:03", now).unwrap();

    assert_components(target, 2026, 7, 8, 1, 2, 3);
}

#[test]
fn parses_full_date_without_seconds() {
    let now = local(2026, 7, 7, 9, 30, 0);

    let target = parse_target_time("2026-07-08 01:02", now).unwrap();

    assert_components(target, 2026, 7, 8, 1, 2, 0);
}

#[test]
fn parses_full_date_with_seconds() {
    let now = local(2026, 7, 7, 9, 30, 0);

    let target = parse_target_time("2026-07-08 01:02:03", now).unwrap();

    assert_components(target, 2026, 7, 8, 1, 2, 3);
}

#[test]
fn rejects_target_equal_to_now() {
    let now = local(2026, 7, 7, 9, 30, 0);

    let err = parse_target_time("09:30", now).unwrap_err();

    assert!(matches!(err, ParseTargetError::NotFuture { .. }));
}

#[test]
fn rejects_target_before_now() {
    let now = local(2026, 7, 7, 9, 30, 0);

    let err = parse_target_time("09:29:59", now).unwrap_err();

    assert!(matches!(err, ParseTargetError::NotFuture { .. }));
}

#[test]
fn rejects_unsupported_format() {
    let now = local(2026, 7, 7, 9, 30, 0);

    let err = parse_target_time("2026/07/08 01:02", now).unwrap_err();

    assert!(matches!(err, ParseTargetError::UnsupportedFormat(_)));
}

#[test]
fn positive_integer_is_countdown_seconds() {
    assert_eq!(parse_timer_arg("3600", now()).map(as_duration), Ok(Duration::from_secs(3600)));
}

#[test]
fn zero_is_rejected() {
    assert_eq!(parse_timer_arg("0", now()), Err(TimerArgError::NotPositive("0".into())));
}

#[test]
fn negative_is_rejected() {
    assert_eq!(parse_timer_arg("-5", now()), Err(TimerArgError::NotPositive("-5".into())));
}

#[test]
fn empty_is_rejected() {
    assert_eq!(parse_timer_arg("   ", now()), Err(TimerArgError::Empty));
}

#[test]
fn clock_time_is_target() {
    // 13:00 is one hour after the fixed now of 12:00.
    assert_eq!(parse_timer_arg("13:00", now()).map(as_duration), Ok(Duration::from_secs(3600)));
}

#[test]
fn junk_is_unsupported_format() {
    assert!(matches!(parse_timer_arg("abc", now()), Err(TimerArgError::Target(_))));
}

// ---- more ----

#[test]
fn countdown_is_exact_seconds() {
    assert_eq!(parse_timer_arg(" 90 ", now()), Ok(TimerLength { secs: 90, millis: 0 }));
}

#[test]
fn huge_countdown_is_unparseable() {
    assert_eq!(
        parse_timer_arg("99999999999999999999", now()),
        Err(TimerArgError::Unparseable("99999999999999999999".into()))
    );
}

#[test]
fn explicit_plus_zero_is_not_positive() {
    assert_eq!(parse_timer_arg("+0", now()), Err(TimerArgError::NotPositive("+0".into())));
}

#[test]
fn target_error_is_wrapped() {
    assert_eq!(
        parse_timer_arg("abc", now()),
        Err(TimerArgError::Target(ParseTargetError::UnsupportedFormat("abc".into())))
    );
}

#[test]
fn messages_match_the_errors() {
    assert_eq!(TimerArgError::Empty.message(), "-t requires a value");
    assert_eq!(
        TimerArgError::NotPositive("0".into()).message(),
        "-t countdown seconds must be greater than 0: 0"
    );
    assert_eq!(
        TimerArgError::Unparseable("9".into()).message(),
        "-t value is not a valid number: 9"
    );
    assert_eq!(
        ParseTargetError::UnsupportedFormat("x".into()).message(),
        "unsupported time format: x"
    );
    assert_eq!(
        ParseTargetError::InvalidLocalTime("y".into()).message(),
        "not a valid local time: y"
    );
    assert_eq!(
        TimerArgError::Target(ParseTargetError::NotFuture { target: "a".into(), now: "b".into() })
            .message(),
        "target time must be later than now: a <= b"
    );
}

#[test]
fn not_future_reports_both_times() {
    let now = local(2026, 7, 7, 9, 30, 0);
    match parse_target_time("09:00", now).unwrap_err() {
        ParseTargetError::NotFuture { target, now } => {
            assert!(target.starts_with("2026-07-07T09:00:00"));
            assert!(now.starts_with("2026-07-07T09:30:00"));
        }
        other => panic!("unexpected {other:?}"),
    }
}

#[test]
fn target_is_trimmed() {
    let now = local(2026, 7, 7, 9, 30, 0);
    let target = parse_target_time("  10:05  ", now).unwrap();
    assert_components(target, 2026, 7, 7, 10, 5, 0);
}

#[test]
fn invalid_fields_are_refused_by_the_constructor() {
    assert_eq!(LocalDateTime::new(2026, 2, 30, 0, 0, 0, 0, 0), None);
    assert_eq!(LocalDateTime::new(2026, 13, 1, 0, 0, 0, 0, 0), None);
    assert_eq!(LocalDateTime::new(2026, 1, 1, 24, 0, 0, 0, 0), None);
    assert_eq!(LocalDateTime::new(2026, 1, 1, 0, 0, 0, 0, 86400), None);
    assert!(LocalDateTime::new(2024, 2, 29, 23, 59, 59, 0, 3600).is_some());
}

#[test]
fn countdown_is_the_exact_millisecond_difference() {
    let now = LocalDateTime::new(2026, 7, 11, 12, 0, 0, 0, 3600).unwrap();
    let target = LocalDateTime::new(2026, 7, 11, 13, 0, 0, 500_000_000, 3600).unwrap();
    assert_eq!(countdown_to(Ok(target), now), Ok(TimerLength { secs: 3600, millis: 500 }));
    // Another offset: 13:00 at UTC+0 is 14:00 at UTC+1.
    let other = LocalDateTime::new(2026, 7, 11, 13, 0, 0, 0, 0).unwrap();
    assert_eq!(countdown_to(Ok(other), now), Ok(TimerLength { secs: 7200, millis: 0 }));
    assert_eq!(countdown_to(Ok(now), now), Ok(TimerLength { secs: 0, millis: 1 }));
    assert_eq!(timer_length(-5), TimerLength { secs: 0, millis: 1 });
    assert_eq!(timer_length(61_234), TimerLength { secs: 61, millis: 234 });
}
