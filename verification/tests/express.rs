use unidpp_registry::express::{
    content_hash, deposit_from_manifest, model_manifest, validation_outcome, ValidationRecord, ValidationStatus,
    ValidatorRun,
};
use unidpp_registry::json::Json;

fn j(s: &str) -> Json {
    Json::parse(s).unwrap()
}

/// The value at a path of keys and indices.
fn at<'a>(v: &'a Json, path: &[&str]) -> &'a Json {
    let mut here = v;
    for step in path {
        here = match here {
            Json::Arr(a) => &a[step.parse::<usize>().unwrap()],
            other => other.get(step).unwrap(),
        };
    }
    here
}

fn text_at<'a>(v: &'a Json, path: &[&str]) -> &'a str {
    at(v, path).as_str().unwrap()
}

const VALID_SOURCE: &str = "SCHEMA unidpp_registry_min '1.0.0';\nEND_SCHEMA;\n";

#[test]
fn content_hash_pins_the_exact_bytes() {
    let h = content_hash(VALID_SOURCE);
    assert!(h.starts_with("sha256:"));
    assert_eq!(h.len(), "sha256:".len() + 64);
    assert_eq!(content_hash(VALID_SOURCE), h, "deterministic");
    assert_ne!(
        content_hash(&VALID_SOURCE.replace('m', "M")),
        h,
        "byte-sensitive"
    );
}

#[test]
fn validation_record_round_trips() {
    let r = ValidationRecord {
        status: ValidationStatus::Pending,
        tool: "expressir".into(),
        detail: Some("not available".into()),
    };
    assert_eq!(ValidationRecord::from_json(&r.to_json()).unwrap(), r);
    assert_eq!(text_at(&r.to_json(), &["status"]), "pending");
    for s in ["pending", "valid", "invalid"] {
        assert_eq!(ValidationStatus::parse(s).unwrap().as_str(), s);
    }
    assert!(ValidationStatus::parse("nope").is_none());
}

#[test]
fn manifest_round_trip() {
    let rec = ValidationRecord {
        status: ValidationStatus::Valid,
        tool: "expressir".into(),
        detail: None,
    };
    let m = model_manifest("1.0.0", VALID_SOURCE, &rec);
    assert_eq!(text_at(&m, &["version"]), "1.0.0");
    let d = deposit_from_manifest(&m).unwrap();
    assert_eq!(d.source, VALID_SOURCE);
    assert_eq!(d.content_hash, content_hash(VALID_SOURCE));
    assert_eq!(d.validation, rec);
    assert!(deposit_from_manifest(&j(r#"{"version": "1"}"#)).is_err());
}

#[test]
fn content_hash_is_the_sha256_of_the_source() {
    assert_eq!(
        content_hash(""),
        "sha256:e3b0c44298fc1c149afbf4c8996fb92427ae41e4649b934ca495991b7852b855"
    );
    assert_eq!(
        content_hash("abc"),
        "sha256:ba7816bf8f01cfea414140de5dae2223b00361a396177a9cb410ff61f20015ad"
    );
}

#[test]
fn an_absent_validator_leaves_the_deposit_pending() {
    let rec = validation_outcome(&ValidatorRun::Unavailable);
    assert_eq!(rec.status, ValidationStatus::Pending);
    assert_eq!(rec.tool, "expressir");
}
