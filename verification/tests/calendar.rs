//! Days and times in time zones.
use chrono::Datelike;
use railwatch::calendar::{
    date, end_of_minute, local_text, local_time, start_of_day, timestamp, timezone, today, write_instant,
    CalendarError, TimeError, Zone, FIRST_DAY, FIRST_INSTANT_MS, LAST_DAY, LAST_INSTANT_MS,
};

#[test]
fn calendar_days_follow_clock_changes_and_skipped_dates() {
    for (at, zone, hours) in [
        ("2025-11-02T12:00:00Z", "America/New_York", 25),
        ("2018-11-04T12:00:00Z", "America/Sao_Paulo", 23),
        ("2011-12-29T12:00:00Z", "Pacific/Apia", 24),
    ] {
        let (start, end) = today(timestamp(at).unwrap(), &Zone::parse(zone).unwrap()).unwrap();
        assert_eq!(end - start, hours * 3_600_000, "{zone}");
    }
    assert!(timezone(Some("typo/zone"), None).is_err());
}

#[test]
fn the_zone_is_the_given_one_or_the_systems_or_universal() {
    let name = |explicit, system| timezone(explicit, system).unwrap().name().to_owned();
    assert_eq!(name(Some("Asia/Tokyo"), Some("Europe/Paris")), "Asia/Tokyo");
    assert_eq!(name(None, Some("Europe/Paris")), "Europe/Paris");
    assert_eq!(name(None, Some("no/zone")), "UTC");
    assert_eq!(name(None, None), "UTC");
    assert!(matches!(
        timezone(Some(""), None),
        Err(CalendarError::InvalidZone)
    ));
    assert_eq!(CalendarError::InvalidZone.message(), "invalid time zone");
}

#[test]
fn the_limits_are_those_of_chrono() {
    assert_eq!(chrono::NaiveDate::MIN.num_days_from_ce(), FIRST_DAY);
    assert_eq!(chrono::NaiveDate::MAX.num_days_from_ce(), LAST_DAY);
    for (at, valid) in [
        (FIRST_INSTANT_MS - 1, false),
        (FIRST_INSTANT_MS, true),
        (LAST_INSTANT_MS, true),
        (LAST_INSTANT_MS + 1, false),
    ] {
        assert_eq!(chrono::DateTime::from_timestamp_millis(at).is_some(), valid);
        assert_eq!(!write_instant(at).is_empty(), valid);
    }
}

#[test]
fn days_begin_with_their_first_minute() {
    let zone = Zone::parse("America/Sao_Paulo").unwrap();
    let day = |y, m, d| {
        chrono::NaiveDate::from_ymd_opt(y, m, d)
            .unwrap()
            .num_days_from_ce()
    };
    assert_eq!(
        start_of_day(day(2018, 11, 4), &zone).unwrap(),
        timestamp("2018-11-04T01:00:00-02:00").unwrap()
    );
    let apia = Zone::parse("Pacific/Apia").unwrap();
    let error = start_of_day(day(2011, 12, 30), &apia).unwrap_err();
    assert_eq!(
        error.message(),
        "calendar date does not exist in Pacific/Apia"
    );
}

#[test]
fn times_are_numbers_or_dates() {
    assert_eq!(timestamp("-5"), Ok(-5));
    assert_eq!(timestamp("+60000"), Ok(60_000));
    assert_eq!(timestamp("1970-01-01T00:01:00+00:00"), Ok(60_000));
    assert_eq!(
        timestamp("2026-09-01T00:00:00-03:00"),
        Ok(1_788_231_600_000)
    );
    for words in ["", "-", "1.5", "2026-09-01", "9223372036854775808"] {
        let error = timestamp(words).unwrap_err();
        assert_eq!(
            error.message(),
            "use RFC3339 with a timezone offset, or Unix milliseconds"
        );
        let cause = chrono::DateTime::parse_from_rfc3339(words).unwrap_err();
        assert_eq!(error.cause(), cause.to_string());
    }
    assert_eq!(
        date("60000"),
        Err(TimeError::Date("premature end of input".into()))
    );
    let error = date("1970/01/01T00:00:00Z").unwrap_err();
    assert_eq!(
        error,
        TimeError::Date("input contains invalid characters".into())
    );
    assert_eq!(error.message(), "input contains invalid characters");
    assert_eq!(date("").unwrap_err().cause(), "premature end of input");
    assert_eq!(date("1970-01-01T00:00:00Z"), Ok(0));
}

#[test]
fn local_times_show_the_clock_of_the_zone() {
    let zone = Zone::parse("Asia/Kathmandu").unwrap();
    let t = local_time(0, &zone).unwrap();
    assert_eq!(t.date, "1970-01-01");
    assert_eq!(t.hour, 5);
    assert_eq!(t.offset, "+05:30");
    assert_eq!((t.week_year, t.week), (1970, 1));
    assert_eq!((t.year, t.month), (1970, 1));
    assert!(local_time(i64::MAX, &zone).is_none());
}

#[test]
fn instants_are_written_in_universal_time() {
    assert_eq!(write_instant(0), "1970-01-01T00:00:00+00:00");
    assert_eq!(write_instant(1500), "1970-01-01T00:00:01.500+00:00");
}

#[test]
fn minutes_end_after_now() {
    assert_eq!(end_of_minute(0), 60_000);
    assert_eq!(end_of_minute(59_999), 60_000);
    assert_eq!(end_of_minute(60_000), 120_000);
}

#[test]
fn instants_are_written_as_a_zone_shows_them() {
    let zone = Zone::parse("Asia/Kathmandu").unwrap();
    assert_eq!(local_text(0, &zone).unwrap(), "1970-01-01T05:30:00+05:30");
    assert_eq!(
        local_text(0, &Zone::utc()).unwrap(),
        "1970-01-01T00:00:00+00:00"
    );
    assert!(local_text(FIRST_INSTANT_MS, &zone).is_some());
    assert!(local_text(LAST_INSTANT_MS, &zone).is_some());
    assert!(local_text(LAST_INSTANT_MS + 1, &zone).is_none());
    assert!(local_text(FIRST_INSTANT_MS - 1, &zone).is_none());
}
