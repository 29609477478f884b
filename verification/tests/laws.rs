use unidpp_registry::applicability_api::bind_applicability;
use unidpp_registry::clock::{evaluate, parse_time_trigger, time_triggers};
use unidpp_registry::discovery::OperatorKeyring;
use unidpp_registry::discovery_api::create_service;
use unidpp_registry::express::{validation_outcome, ValidationStatus, ValidatorRun};
use unidpp_registry::items_api::{create_item, get_item, list_items, supersede_item, Listing};
use unidpp_registry::json::Json;
use unidpp_registry::manifest::{validate_manifest, ProfileManifest};
use unidpp_registry::model::ItemClass;
use unidpp_registry::models_api::{deposit_model, get_model, parse_model_request, validate_model};
use unidpp_registry::request::{Params, Refusal};
use unidpp_registry::satisfiability::satisfies;
use unidpp_registry::store::Store;
use unidpp_registry::table::Table;
use unidpp_registry::time::Timestamp;

fn j(s: &str) -> Json {
    Json::parse(s).unwrap()
}

fn ts(s: &str) -> Timestamp {
    Timestamp::parse(s).unwrap()
}

fn now() -> Timestamp {
    ts("2026-09-03T00:00:00Z")
}

fn query(pairs: &[(&str, &str)]) -> Params {
    let mut q: Params = Table::new();
    for (k, v) in pairs {
        q.insert(k.to_string(), v.to_string());
    }
    q
}

const UNIT: &str = r#"{"register_id": "r", "item_id": "unit-kwh", "class": "unit", "definition": "kilowatt hour", "version": "1.0.0", "effective_from": "2026-01-01T00:00:00Z", "registered_at": "1999-01-01T00:00:00Z"}"#;

const PROFILE: &str = r#"{"register_id": "r", "item_id": "p", "class": "profile", "definition": "a profile", "version": "1.0.0", "effective_from": "2026-01-01T00:00:00Z"}"#;

#[test]
fn an_age_once_reached_stays_reached() {
    let trigger = parse_time_trigger(&j(
        r#"{"predicate_class": "time", "basis": "manufactured_at", "operator": ">=", "duration": "P40Y"}"#,
    ))
    .unwrap();
    let facts = j(r#"{"manufactured_at": "1962-05-04T00:00:00Z"}"#);
    let mut fired = false;
    for at in ["1990-01-01T00:00:00Z", "2002-05-03T23:59:59Z", "2002-05-04T00:00:00Z", "2100-01-01T00:00:00Z"] {
        let e = evaluate(&trigger, &facts, ts(at)).unwrap();
        assert_eq!(e.threshold, ts("2002-05-04T00:00:00Z"));
        assert!(e.satisfied || !fired);
        fired = e.satisfied;
    }
    assert!(fired);
}

#[test]
fn what_the_schema_accepts_parses() {
    for doc in [
        r#"{"version": "1"}"#,
        r#"{"version": "1", "axes": ["sector"], "subject_capability": "S2", "other": [1]}"#,
        r#"{"version": "1", "triggers": [{"predicate_class": "fact_predicate", "predicate_ref": "pred/x"}]}"#,
        r#"{"version": "1", "triggers": [{"predicate_class": "time", "basis": "manufactured_at", "operator": "<", "duration": "P1Y"}]}"#,
        r#"{"version": "1", "data_points": [{"element": "de/x", "min_capability": "S0", "fresh_within": "P1D"}]}"#,
    ] {
        assert!(validate_manifest(&j(doc)).is_ok(), "{doc}");
        assert!(ProfileManifest::from_json(&j(doc)).is_ok(), "{doc}");
        assert!(time_triggers(&j(doc)).is_ok(), "{doc}");
    }
}

#[test]
fn the_server_stamps_the_registration() {
    let mut store = Store::new();
    create_item(&mut store, UNIT, None, now()).unwrap();
    assert_eq!(store.item("unit-kwh").unwrap().versions[0].registered_at, Some(now()));
    create_item(&mut store, PROFILE, None, now()).unwrap();
    bind_applicability(
        &mut store,
        r#"{"profile_id": "p", "product_type": "gtin:1", "registered_at": "1999-01-01T00:00:00Z"}"#,
        now(),
    )
    .unwrap();
    assert_eq!(store.bindings_for("gtin:1")[0].registered_at, Some(now()));
}

#[test]
fn an_item_of_another_class_is_not_found() {
    let mut store = Store::new();
    create_item(&mut store, UNIT, None, now()).unwrap();
    let found = get_item(&store, &query(&[]), "unit-kwh", Some(ItemClass::Unit), now());
    assert_eq!(found.unwrap().status, 200);
    let other = get_item(&store, &query(&[]), "unit-kwh", Some(ItemClass::Profile), now());
    assert_eq!(other, Err(Refusal::NotFound("no registry item `unit-kwh`".to_string())));
}

#[test]
fn a_refused_request_changes_nothing() {
    let mut store = Store::new();
    create_item(&mut store, UNIT, None, now()).unwrap();
    let before = store.journal_from(0);
    assert!(matches!(create_item(&mut store, UNIT, None, now()), Err(Refusal::Conflict(_))));
    assert!(create_item(&mut store, "{", None, now()).is_err());
    assert!(supersede_item(&mut store, &query(&[]), "nope", "{}", None, now()).is_err());
    assert!(bind_applicability(&mut store, r#"{"profile_id": "nope", "product_type": "x"}"#, now()).is_err());
    let keyring = OperatorKeyring::seeded_dev();
    assert!(create_service(&mut store, &keyring, r#"{"identifier": "s"}"#, now()).is_err());
    assert_eq!(store.journal_from(0), before);
}

#[test]
fn mirrors_serve_identical_text() {
    let mut a = Store::new();
    create_item(&mut a, UNIT, None, now()).unwrap();
    create_item(&mut a, PROFILE, None, now()).unwrap();
    let mut b = Store::new();
    create_item(&mut b, PROFILE, None, now()).unwrap();
    create_item(&mut b, UNIT, None, now()).unwrap();
    let text = |store: &Store, at: Timestamp| match list_items(store, &query(&[]), None, Some("text/cddal"), at) {
        Ok(Listing::Cddal { text, .. }) => text,
        _ => panic!("no dictionary text"),
    };
    assert_eq!(text(&a, now()), text(&b, ts("2030-01-01T00:00:00Z")));
    assert!(text(&a, now()).starts_with("TERM p\n"));
}

#[test]
fn documents_carry_their_instant() {
    let mut store = Store::new();
    let reply = create_item(&mut store, UNIT, None, now()).unwrap();
    assert_eq!(reply.body.get_str("as_of"), Some("2026-09-03T00:00:00Z"));
    let q = query(&[("at", "2026-02-01T00:00:00Z")]);
    let reply = get_item(&store, &q, "unit-kwh", None, now()).unwrap();
    assert_eq!(reply.as_of, ts("2026-02-01T00:00:00Z"));
    assert_eq!(reply.body.get_str("as_of"), Some("2026-02-01T00:00:00Z"));
}

#[test]
fn a_deposit_is_read_back_and_revalidated() {
    let mut store = Store::new();
    let body = r#"{"register_id": "r", "item_id": "m", "definition": "a model", "version": "1.0.0", "source": "SCHEMA m '1'; END_SCHEMA;"}"#;
    let request = parse_model_request(body, now()).unwrap();
    deposit_model(&mut store, &request, &ValidatorRun::Unavailable, now()).unwrap();
    let read = get_model(&store, &query(&[]), "m", now()).unwrap();
    assert_eq!(read.body.get_str("source"), Some("SCHEMA m '1'; END_SCHEMA;"));
    assert_eq!(read.body.get("validation").unwrap().get_str("status"), Some("pending"));
    // pinned by another hash, it is refused
    let pinned = get_model(&store, &query(&[("hash", "sha256:00")]), "m", now());
    assert!(matches!(pinned, Err(Refusal::Conflict(_))));
    validate_model(&mut store, "m", "1.0.0", &ValidatorRun::Accepted, now()).unwrap();
    let read = get_model(&store, &query(&[]), "m", now()).unwrap();
    assert_eq!(read.body.get("validation").unwrap().get_str("status"), Some("valid"));
    // and the journal rebuilds the validated state
    let (again, faults) = Store::open(&store.journal_from(0));
    assert!(faults.is_empty());
    assert_eq!(again.item("m"), store.item("m"));
}

#[test]
fn validator_runs_have_their_outcome() {
    assert_eq!(validation_outcome(&ValidatorRun::Accepted).status, ValidationStatus::Valid);
    let run = |stderr: &str, stdout: &str| {
        validation_outcome(&ValidatorRun::Rejected { stderr: stderr.to_string(), stdout: stdout.to_string() })
    };
    let rejected = run("trace\nline 3: bad\n\n", "chatter\n");
    assert_eq!(rejected.status, ValidationStatus::Invalid);
    assert_eq!(rejected.detail.as_deref(), Some("line 3: bad"));
    let elsewhere = run(" \n\n", "loading\nline 7: worse\n");
    assert_eq!(elsewhere.status, ValidationStatus::Invalid);
    assert_eq!(elsewhere.detail.as_deref(), Some("line 7: worse"));
    let long = run("", &format!("first\n{}", "x".repeat(400)));
    assert_eq!(long.detail, Some(format!("{}…", "x".repeat(300))));
    // A single line is cut and marked too, by characters and not by bytes.
    assert_eq!(run(&"é".repeat(301), "").detail, Some(format!("{}…", "é".repeat(300))));
    assert_eq!(run(&format!("first\n{}", "é".repeat(150)), "").detail, Some("é".repeat(150)));
    assert_eq!(run(&"x".repeat(300), "").detail, Some("x".repeat(300)));
    let silent = run("", "\n");
    assert_eq!(silent.detail.as_deref(), Some("expressir rejected the source"));
    let unstaged = validation_outcome(&ValidatorRun::NotStaged("disk full".to_string()));
    assert_eq!(unstaged.status, ValidationStatus::Pending);
    assert_eq!(unstaged.tool, "filesystem");
    assert_eq!(unstaged.detail.as_deref(), Some("could not stage the source for validation: disk full"));
}

#[test]
fn the_capability_ladder_is_ordered() {
    let classes = ["S0", "S1", "S2", "S3"];
    for (i, a) in classes.iter().enumerate() {
        for (k, b) in classes.iter().enumerate() {
            assert_eq!(satisfies(a, b), k >= i);
        }
    }
}

#[test]
fn superseding_keeps_what_was_registered() {
    let mut store = Store::new();
    create_item(&mut store, UNIT, None, now()).unwrap();
    let before = store.item("unit-kwh").unwrap().clone();
    supersede_item(
        &mut store,
        &query(&[]),
        "unit-kwh",
        r#"{"version": "2.0.0", "reason": "second edition", "effective_from": "2027-01-01T00:00:00Z"}"#,
        None,
        now(),
    )
    .unwrap();
    let after = store.item("unit-kwh").unwrap();
    assert_eq!(after.versions.len(), 2);
    assert_eq!(after.title, before.title);
    assert_eq!(after.versions[0].version, before.versions[0].version);
    assert_eq!(after.versions[0].effective_from, before.versions[0].effective_from);
    assert_eq!(after.versions[0].registered_at, before.versions[0].registered_at);
    assert_eq!(after.window_until(&after.versions[0]), Some(ts("2027-01-01T00:00:00Z")));
}
