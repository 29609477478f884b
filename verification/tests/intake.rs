use unidpp_registry::express::{model_manifest, ValidationRecord, ValidationStatus};
use unidpp_registry::intake::{default_chain, model_validation_status, run, IntakeCheck, IntakeContext};
use unidpp_registry::json::Json;
use unidpp_registry::model::{Item, ItemClass, ItemVersion, Status};
use unidpp_registry::store::Store;
use unidpp_registry::time::Timestamp;

fn j(s: &str) -> Json {
    Json::parse(s).unwrap()
}

fn ts(s: &str) -> Timestamp {
    Timestamp::parse(s).unwrap()
}

fn item(id: &str, class: ItemClass, manifest: Option<Json>) -> Item {
    Item {
        identifier: id.to_string(),
        register: "unidpp-dev".to_string(),
        item_class: class,
        title: format!("{id} title"),
        submitting_organization: None,
        versions: vec![ItemVersion {
            version: "1.0.0".to_string(),
            status: Status::Valid,
            effective_from: Some(ts("2026-01-01T00:00:00Z")),
            effective_until: None,
            registered_at: Some(ts("2026-01-01T00:00:00Z")),
            superseded_by_version: None,
            notes: None,
        }],
        manifest,
    }
}

#[test]
fn chain_is_class_scoped() {
    let store = Store::new();
    let ctx = IntakeContext {
        store: &store,
        strict: true,
    };
    // a unit item with a manifest that would fail the profile
    // schema is not the profile check's concern
    let unit = item(
        "unit-kwh",
        ItemClass::Unit,
        Some(j(r#"{"min_capability": "S9"}"#)),
    );
    assert!(run(&default_chain(), &unit, &ctx).is_ok());
    // a profile with the same manifest is rejected
    let profile = item(
        "p",
        ItemClass::Profile,
        Some(j(r#"{"data_points": [{"min_capability": "S9"}]}"#)),
    );
    let e = run(&default_chain(), &profile, &ctx).unwrap_err();
    assert!(e.iter().all(|x| x.check == "profile-manifest-schema"));
    assert!(e.iter().any(|x| x.path.contains("min_capability")));
}

#[test]
fn strict_mode_downgrades_satisfiability_to_a_warning() {
    let store = Store::new();
    let manifest = j(r#"{
        "version": "1.0.0",
        "subject_capability": "S0",
        "data_points": [{"element": "de/x", "min_capability": "S3"}]
    }"#);
    let profile = item("p", ItemClass::Profile, Some(manifest));
    let strict = IntakeContext {
        store: &store,
        strict: true,
    };
    let e = run(&default_chain(), &profile, &strict).unwrap_err();
    assert!(e.iter().any(|x| x.check == "profile-satisfiability"));
    let lenient = IntakeContext {
        store: &store,
        strict: false,
    };
    let w = run(&default_chain(), &profile, &lenient).unwrap();
    assert!(w
        .iter()
        .any(|x| x.check == "profile-satisfiability"
            && x.path == "data_points[0].min_capability"));
}

#[test]
fn mapping_check_validates_integrity_against_the_store() {
    let mut store = Store::new();
    let source = item("gb-4943-1", ItemClass::DataElement, None);
    store.register_item(source.clone(), ts("2026-09-01T00:00:00Z")).unwrap();
    let ctx = IntakeContext {
        store: &store,
        strict: true,
    };
    let good = item(
        "map-1",
        ItemClass::CrossRegisterMapping,
        Some(j(r#"{
            "version": "1.0.0",
            "source": {"register": "unidpp-dev", "item": "gb-4943-1", "version": "1.0.0"},
            "target": {"register": "unidpp-dev", "item": "gb-4943-1"},
            "mapping_type": "related"
        }"#)),
    );
    assert!(run(&default_chain(), &good, &ctx).is_ok());
    let dangling = item(
        "map-2",
        ItemClass::CrossRegisterMapping,
        Some(j(r#"{
            "version": "1.0.0",
            "source": {"item": "gb-4943-1"},
            "target": {"item": "iec-62368-1"},
            "mapping_type": "equivalent"
        }"#)),
    );
    let e = run(&default_chain(), &dangling, &ctx).unwrap_err();
    assert!(e
        .iter()
        .any(|x| x.check == "cross-register-mapping-integrity" && x.path == "target.item"));
    // a mapping without a manifest is rejected outright
    let bare = item("map-3", ItemClass::CrossRegisterMapping, None);
    assert!(run(&default_chain(), &bare, &ctx).is_err());
}

#[test]
fn model_validation_status_helper() {
    let rec = ValidationRecord {
        status: ValidationStatus::Pending,
        tool: "expressir".into(),
        detail: None,
    };
    let m = item(
        "m",
        ItemClass::Model,
        Some(model_manifest(
            "1.0.0",
            "SCHEMA m '1'; END_SCHEMA;",
            &rec,
        )),
    );
    assert_eq!(model_validation_status(&m), ValidationStatus::Pending);
    assert_eq!(
        model_validation_status(&item("m2", ItemClass::Model, None)),
        ValidationStatus::Pending
    );
}

#[test]
fn the_chain_runs_its_checks_in_order() {
    let names: Vec<&str> = default_chain().iter().map(|c| c.name()).collect();
    assert_eq!(
        names,
        vec!["profile-manifest-schema", "profile-satisfiability", "cross-register-mapping-integrity"]
    );
}
