use unidpp_registry::time::{civil_from_days, days_from_civil, days_in_month, Timestamp};

#[test]
fn instants_parse_to_seconds() {
    for (text, secs) in [
        ("1970-01-01T00:00:00Z", 0),
        ("2026-01-01T00:00:00Z", 1_767_225_600),
        ("1962-05-04T00:00:00Z", -241_833_600),
        ("2000-02-29T23:59:59Z", 951_868_799),
        ("2026-01-01T02:00:00+02:00", 1_767_225_600),
    ] {
        assert_eq!(Timestamp::parse(text), Ok(Timestamp { secs }), "{text}");
    }
}

#[test]
fn malformed_instants_are_refused() {
    for bad in [
        "", "2026-01-01", "2026-13-01T00:00:00Z", "2026-02-29T00:00:00Z", "2026-01-01T24:00:00Z",
        "2026-01-01T00:00:00", "tomorrow",
    ] {
        assert!(Timestamp::parse(bad).is_err(), "{bad}");
    }
}

#[test]
fn instants_are_written_in_utc() {
    assert_eq!(Timestamp { secs: 0 }.to_string(), "1970-01-01T00:00:00Z");
    assert_eq!(Timestamp { secs: -1 }.to_string(), "1969-12-31T23:59:59Z");
    assert_eq!(Timestamp { secs: 1_788_220_800 }.to_string(), "2026-09-01T00:00:00Z");
}

#[test]
fn written_instants_are_read_back() {
    for secs in [-62_135_596_800, -1, 0, 951_868_799, 4_102_444_800] {
        let t = Timestamp { secs };
        assert_eq!(Timestamp::parse(&t.to_string()), Ok(t));
    }
}

#[test]
fn dates_and_day_numbers_agree() {
    for (days, date) in [(0, (1970, 1, 1)), (-1, (1969, 12, 31)), (11_016, (2000, 2, 29)), (20_454, (2026, 1, 1))] {
        assert_eq!(civil_from_days(days), date);
        assert_eq!(days_from_civil(date.0, date.1, date.2), days);
    }
    assert_eq!(days_in_month(2024, 2), 29);
    assert_eq!(days_in_month(1900, 2), 28);
    assert_eq!(days_in_month(2000, 2), 29);
    assert_eq!(days_in_month(2026, 4), 30);
}
