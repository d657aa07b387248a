use cpml::error::CpmlError;
use cpml::time::{days_between, display_datetime, format_keyframe_date, parse_date, parse_datetime, DateTime};

#[test]
fn parses_every_accepted_format() {
    assert_eq!(parse_datetime("1970-01-01").unwrap(), DateTime { secs: 0 });
    assert_eq!(parse_datetime("1970-01-02T00:00:01").unwrap(), DateTime { secs: 86401 });
    assert_eq!(parse_datetime("2026-06-01T08:00").unwrap().secs, parse_datetime("2026-06-01T08:00:00").unwrap().secs);
    // an offset is read and ignored
    assert_eq!(
        parse_datetime("2026-01-15T14:30:00+0800").unwrap(),
        parse_datetime("2026-01-15T14:30:00").unwrap()
    );
    assert_eq!(parse_datetime("1969-12-31").unwrap(), DateTime { secs: -86400 });
}

#[test]
fn unreadable_datetime_reports_chrono_reason() {
    match parse_datetime("next tuesday") {
        Err(CpmlError::DateParseError(m)) => {
            assert!(m.starts_with("Invalid date/datetime 'next tuesday': "));
            assert!(m.len() > "Invalid date/datetime 'next tuesday': ".len());
        },
        other => panic!("unexpected {:?}", other),
    }
}

#[test]
fn parse_date_gives_the_day_number() {
    assert_eq!(parse_date("1970-01-11").unwrap().days, 10);
    assert_eq!(parse_date("1969-12-31").unwrap().days, -1);
    assert!(matches!(parse_date("2026-01-01T08:00:00"), Err(CpmlError::DateParseError(m)) if m.starts_with("Invalid date '2026-01-01T08:00:00': ")));
}

#[test]
fn date_of_an_instant_floors_toward_the_past() {
    assert_eq!(DateTime { secs: 86399 }.date().days, 0);
    assert_eq!(DateTime { secs: -1 }.date().days, -1);
    assert_eq!(DateTime { secs: -86400 }.date().days, -1);
    assert_eq!(DateTime { secs: -86401 }.date().days, -2);
}

#[test]
fn display_matches_chrono_text() {
    assert_eq!(display_datetime(parse_datetime("2026-01-05T08:30:00").unwrap()), "2026-01-05 08:30:00");
    assert_eq!(display_datetime(DateTime { secs: 0 }), "1970-01-01 00:00:00");
    // beyond chrono's range the seconds are written out
    assert_eq!(display_datetime(DateTime { secs: i64::MAX }), i64::MAX.to_string());
}

#[test]
fn whole_days_round_toward_zero() {
    let a = parse_datetime("2026-01-01T08:00:00").unwrap();
    let b = parse_datetime("2026-01-03T07:00:00").unwrap();
    assert_eq!(days_between(a, b), 1);
    assert_eq!(days_between(b, a), -1);
    assert_eq!(days_between(DateTime { secs: i64::MIN }, DateTime { secs: i64::MAX }), (u64::MAX / 86400) as i64);
}

#[test]
fn keyframe_dates_drop_midnight_times() {
    assert_eq!(format_keyframe_date(parse_datetime("2026-01-05").unwrap()), "2026-01-05");
    assert_eq!(format_keyframe_date(parse_datetime("2026-01-05T08:30:59").unwrap()), "2026-01-05T08:30");
    assert_eq!(format_keyframe_date(DateTime { secs: -86400 }), "1969-12-31");
    assert_eq!(format_keyframe_date(DateTime { secs: -1 }), "1969-12-31T23:59");
}
