use unidpp_registry::clock::{
    add_duration, checked_add_duration, evaluate, parse_duration, parse_time_trigger, time_triggers, ClockEvaluation,
    Duration,
};
use unidpp_registry::json::Json;
use unidpp_registry::time::{Timestamp, SECS_PER_DAY};

fn j(s: &str) -> Json {
    Json::parse(s).unwrap()
}

fn ts(s: &str) -> Timestamp {
    Timestamp::parse(s).unwrap()
}

#[test]
fn duration_forms_parse() {
    let d = parse_duration("P40Y").unwrap();
    assert_eq!(
        d,
        Duration {
            months: 480,
            seconds: 0
        }
    );
    let d = parse_duration("P1Y6M3D").unwrap();
    assert_eq!(
        d,
        Duration {
            months: 18,
            seconds: 3 * SECS_PER_DAY
        }
    );
    let d = parse_duration("P2W").unwrap();
    assert_eq!(d.seconds, 14 * SECS_PER_DAY);
    let d = parse_duration("PT6H30M").unwrap();
    assert_eq!(d.seconds, 6 * 3_600 + 30 * 60);
    let d = parse_duration("PT90S").unwrap();
    assert_eq!(d.seconds, 90);
    let d = parse_duration("P0D").unwrap();
    assert_eq!(d, Duration::zero());
    let d = parse_duration("P1Y2M3DT4H5M6S").unwrap();
    assert_eq!(d.months, 14);
    assert_eq!(d.seconds, 3 * 86_400 + 4 * 3_600 + 5 * 60 + 6);
}

#[test]
fn duration_rejects_malformed() {
    for bad in [
        "", "40Y", "P", "PX", "P1.5Y", "PT", "P1H", "T1H", "P1YX", "P-1Y", "P1y", "P1YT",
        "PT1M30",
    ] {
        assert!(parse_duration(bad).is_err(), "`{bad}` should not parse");
    }
}

#[test]
fn add_duration_is_calendar_aware() {
    // the antique case: 1962-05-04 + 40 years
    assert_eq!(
        add_duration(
            ts("1962-05-04T00:00:00Z"),
            &Duration {
                months: 480,
                seconds: 0
            }
        ),
        ts("2002-05-04T00:00:00Z")
    );
    // month-end clamping, non-leap and leap
    assert_eq!(
        add_duration(
            ts("2026-01-31T12:00:00Z"),
            &Duration {
                months: 1,
                seconds: 0
            }
        ),
        ts("2026-02-28T12:00:00Z")
    );
    assert_eq!(
        add_duration(
            ts("2024-01-31T00:00:00Z"),
            &Duration {
                months: 1,
                seconds: 0
            }
        ),
        ts("2024-02-29T00:00:00Z")
    );
    // year rollover with clamping (Feb 29 + 1 year)
    assert_eq!(
        add_duration(
            ts("2024-02-29T00:00:00Z"),
            &Duration {
                months: 12,
                seconds: 0
            }
        ),
        ts("2025-02-28T00:00:00Z")
    );
    // absolute seconds keep the time of day
    assert_eq!(
        add_duration(
            ts("2000-01-01T00:00:00Z"),
            &Duration {
                months: 0,
                seconds: 86_400 + 3_600
            }
        ),
        ts("2000-01-02T01:00:00Z")
    );
    // months and seconds compose
    let d = parse_duration("P1M1DT1H").unwrap();
    assert_eq!(
        add_duration(ts("2026-03-15T10:00:00Z"), &d),
        ts("2026-04-16T11:00:00Z")
    );
    // negative results stay on the proleptic calendar
    assert_eq!(
        add_duration(
            ts("1962-05-04T00:00:00Z"),
            &Duration {
                months: -12,
                seconds: 0
            }
        ),
        ts("1961-05-04T00:00:00Z")
    );
}

fn antique(fact: &str, at: &str) -> Result<ClockEvaluation, String> {
    let t = parse_time_trigger(&j(r#"{
        "predicate_class": "time", "basis": "manufactured_at",
        "operator": ">=", "duration": "P40Y"
    }"#))
    .unwrap();
    evaluate(&t, &j(&format!("{{\"manufactured_at\": \"{fact}\"}}")), ts(at))
}

#[test]
fn antique_threshold_boundary() {
    // threshold = 1962-05-04 + P40Y = 2002-05-04
    let e = antique("1962-05-04T00:00:00Z", "2002-05-04T00:00:00Z").unwrap();
    assert_eq!(e.threshold, ts("2002-05-04T00:00:00Z"));
    assert!(e.satisfied, ">= is inclusive at the threshold instant");
    assert!(
        !antique("1962-05-04T00:00:00Z", "2002-05-03T23:59:59Z")
            .unwrap()
            .satisfied
    );
    assert!(
        !antique("1962-05-04T00:00:00Z", "2001-06-01T00:00:00Z")
            .unwrap()
            .satisfied
    );
    assert!(
        antique("1962-05-04T00:00:00Z", "2003-01-01T00:00:00Z")
            .unwrap()
            .satisfied
    );
}

#[test]
fn operators_evaluate_against_the_threshold() {
    let eval = |op: &str, at: &str| -> bool {
        let t = parse_time_trigger(&j(&format!(
            "{{\"predicate_class\": \"time\", \"basis\": \"first_registered_at\", \"operator\": \"{op}\", \"duration\": \"P30D\"}}"
        )))
        .unwrap();
        evaluate(
            &t,
            &j(r#"{ "first_registered_at": "2026-01-01T00:00:00Z" }"#),
            ts(at),
        )
        .unwrap()
        .satisfied
    };
    assert!(eval(">", "2026-01-31T00:00:01Z"));
    assert!(!eval(">", "2026-01-31T00:00:00Z"), "> is exclusive");
    assert!(eval("<=", "2026-01-31T00:00:00Z"));
    assert!(!eval("<", "2026-01-31T00:00:00Z"), "< is exclusive");
    assert!(
        eval("<", "2026-01-02T00:00:00Z"),
        "before the threshold, < holds"
    );
    assert!(
        !eval("<", "2026-02-01T00:00:00Z"),
        "after the threshold, < fails"
    );
}

#[test]
fn missing_or_bad_fact_is_an_error() {
    let t = parse_time_trigger(&j(r#"{
        "predicate_class": "time", "basis": "manufactured_at",
        "operator": ">=", "duration": "P40Y"
    }"#))
    .unwrap();
    let e = evaluate(&t, &j(r#"{}"#), ts("2026-01-01T00:00:00Z")).unwrap_err();
    assert!(e.contains("missing the `manufactured_at` basis"));
    let e = evaluate(
        &t,
        &j(r#"{ "manufactured_at": "not-a-date" }"#),
        ts("2026-01-01T00:00:00Z"),
    )
    .unwrap_err();
    assert!(e.contains("subject fact"));
}

#[test]
fn malformed_time_triggers_are_rejected_at_parse() {
    for bad in [
        j(r#"{}"#),
        j(r#"{ "predicate_class": "time" }"#),
        j(r#"{ "predicate_class": "time", "basis": "sold_at", "operator": ">=", "duration": "P1Y" }"#),
        j(r#"{ "predicate_class": "time", "basis": "manufactured_at", "operator": "==", "duration": "P1Y" }"#),
        j(r#"{ "predicate_class": "time", "basis": "manufactured_at", "operator": ">=", "duration": "40Y" }"#),
    ] {
        assert!(parse_time_trigger(&bad).is_err(), "{bad:?} should not parse");
    }
}

#[test]
fn time_triggers_collected_from_a_manifest() {
    let manifest = j(r#"{
        "version": "1.0.0",
        "triggers": [
            { "predicate_class": "fact_predicate", "predicate_ref": "pred/x" },
            { "predicate_class": "time", "basis": "manufactured_at", "operator": ">=", "duration": "P40Y" }
        ]
    }"#);
    let got = time_triggers(&manifest).unwrap();
    assert_eq!(got.len(), 1);
    assert_eq!(got[0].0, 1, "only the time trigger, at its index");
    assert_eq!(got[0].1.duration_raw, "P40Y");
    assert!(time_triggers(&j(r#"{ "version": "1.0.0" }"#))
        .unwrap()
        .is_empty());
    let broken = j(r#"{ "triggers": [ { "predicate_class": "time" } ] }"#);
    assert!(time_triggers(&broken).is_err());
}

#[test]
fn durations_beyond_the_number_range_are_rejected() {
    assert!(parse_duration("P99999999999999999999Y").is_err());
    assert!(parse_duration("P9223372036854775807Y").is_err());
}

#[test]
fn checked_addition_refuses_what_does_not_fit() {
    let t = ts("2026-01-31T12:00:00Z");
    let month = Duration { months: 1, seconds: 0 };
    assert_eq!(checked_add_duration(t, &month), Some(ts("2026-02-28T12:00:00Z")));
    assert_eq!(checked_add_duration(t, &Duration { months: 0, seconds: i64::MAX }), None);
    assert_eq!(checked_add_duration(t, &Duration { months: i64::MAX, seconds: 0 }), None);
}
