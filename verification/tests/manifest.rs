use unidpp_registry::json::Json;
use unidpp_registry::manifest::{profile_manifest_schema, stamped_schema, validate_manifest, ProfileManifest, Trigger};
use unidpp_registry::schema::SchemaError;
use unidpp_registry::time::Timestamp;

fn j(s: &str) -> Json {
    Json::parse(s).unwrap()
}

/// The value at a path of keys and indices.
fn at<'a>(v: &'a Json, path: &[&str]) -> &'a Json {
    let mut here = v;
    for step in path {
        here = match here {
            Json::Arr(a) => &a[step.parse::<usize>().unwrap()],
            other => other.get(step).unwrap(),
        };
    }
    here
}

fn text_at<'a>(v: &'a Json, path: &[&str]) -> &'a str {
    at(v, path).as_str().unwrap()
}

/// The document with the value at a path replaced, or taken out.
fn changed(v: &Json, path: &[&str], value: Option<Json>) -> Json {
    match v {
        Json::Arr(a) => {
            let i = path[0].parse::<usize>().unwrap();
            let mut out = a.clone();
            out[i] = if path.len() == 1 { value.unwrap() } else { changed(&a[i], &path[1..], value) };
            Json::Arr(out)
        }
        Json::Obj(o) => {
            let mut out = o.clone();
            if path.len() > 1 {
                let inner = changed(o.get(path[0]).unwrap(), &path[1..], value);
                out.insert(path[0].to_string(), inner);
            } else {
                match value {
                    Some(x) => out.insert(path[0].to_string(), x),
                    None => out.remove(path[0]),
                }
            }
            Json::Obj(out)
        }
        _ => panic!("no such path"),
    }
}

fn without(v: &Json, path: &[&str]) -> Json {
    changed(v, path, None)
}

fn time_trigger_manifest(version: &str, basis: &str, operator: &str, duration: &str) -> Json {
    let doc = j(r#"{"triggers": [{"predicate_class": "time"}]}"#);
    let doc = changed(&doc, &["version"], Some(Json::str(version)));
    let doc = changed(&doc, &["triggers", "0", "basis"], Some(Json::str(basis)));
    let doc = changed(&doc, &["triggers", "0", "operator"], Some(Json::str(operator)));
    changed(&doc, &["triggers", "0", "duration"], Some(Json::str(duration)))
}

fn schema_errors(doc: &Json) -> Vec<SchemaError> {
    validate_manifest(doc).unwrap_err()
}

/// A material-loop item manifest.
fn material_loop_manifest() -> Json {
    j(r#"{
        "version": "1.0.0",
        "axes": ["characteristic"],
        "issuing_role": "manufacturer of the product containing the permanent magnet",
        "custody": {"default_model": "mass_balance", "standard": "ISO 22095:2020"},
        "legal_basis": [{
            "instrument": "Regulation (EU) 2024/1252 (Critical Raw Materials Act)",
            "citation": "Art. 15 recycled-content duties",
            "force": "binding"
        }],
        "data_points": [
            {
                "element": "de/m/crm-identity",
                "min_capability": "S0",
                "required_provenance": "type_declared",
                "subject_granularity": "type",
                "tier_a": false,
                "traversal_depth": 1,
                "trust_floor": "attested",
                "cardinality": "1..n"
            },
            {
                "element": "de/m/lot-mass",
                "min_capability": "S0",
                "required_provenance": "instance_measured",
                "required_unit": "units:kg",
                "subject_granularity": "instance",
                "tier_a": false,
                "traversal_depth": 2,
                "trust_floor": "attested",
                "cardinality": "1"
            }
        ],
        "transforms": [
            {
                "transform_ref": "urn:unidpp:transform:recycled-content-mass-balance",
                "transform_class": "aggregation",
                "method_citation": "ISO 59020:2024"
            }
        ],
        "triggers": [
            {
                "predicate_class": "fact_predicate",
                "predicate_ref": "pred/contains-strategic-crm",
                "evaluation_mode": "on_event",
                "description": "product contains a strategic raw material"
            }
        ],
        "notes": "traversal depth 99 keeps deep graphs verifiable"
    }"#)
}

/// A projector-lens manifest.
fn lens_manifest() -> Json {
    j(r#"{
        "version": "1.0.0",
        "profile": {
            "id": "urn:unidpp:profile:pilot-eu-lens",
            "axes": {"jurisdiction": "EU", "sector": "e-mobility"},
            "trigger": "Any",
            "min_capability": "silent",
            "freshness": "Static",
            "data_points": [
                {"register": "unidpp-dev", "item": "de.dpp.operator-id", "version": "1.0.0"}
            ],
            "crypto_suites": ["ecdsa-p256"]
        },
        "bindings": [
            {"element": "unidpp-dev/de.dpp.operator-id@1.0.0", "min_trust": "attested", "min_capability": "silent"}
        ],
        "transforms": [
            {"kind": "classification", "id": "eu-reparability-class", "source": "de.dpp.reparability-score", "bands": [{"label": "A", "min": "8.0"}]}
        ]
    }"#)
}

#[test]
fn schema_declares_draft_2020_12_and_is_fetchable_shaped() {
    let s = profile_manifest_schema();
    assert_eq!(text_at(&s, &["$schema"]), "https://json-schema.org/draft/2020-12/schema");
    assert_eq!(text_at(&s, &["$id"]), "https://unidpp.org/schemas/profile-manifest/v1");
    assert_eq!(text_at(&s, &["type"]), "object");
    assert!(at(&s, &["required"]).as_array().unwrap().contains(&j(r#""version""#)));
    assert!(at(&s, &["$defs"]).as_object().is_some());
}

#[test]
fn both_pilot_dialects_validate() {
    for doc in [material_loop_manifest(), lens_manifest()] {
        assert!(validate_manifest(&doc).is_ok(), "{doc:?}");
        // parity: schema-valid documents parse into the typed model
        assert!(ProfileManifest::from_json(&doc).is_ok());
    }
}

#[test]
fn time_trigger_manifests_validate() {
    let doc = time_trigger_manifest("1.0.0", "manufactured_at", ">=", "P40Y");
    assert!(validate_manifest(&doc).is_ok());
    let parsed = ProfileManifest::from_json(&doc).unwrap();
    assert_eq!(parsed.triggers.len(), 1);
    assert!(matches!(parsed.triggers[0], Trigger::Time(_)));
}

#[test]
fn malformed_manifests_are_rejected_with_field_paths() {
    // missing version → path at the document root
    let doc = material_loop_manifest();
    let doc = without(&doc, &["version"]);
    let e = schema_errors(&doc);
    assert_eq!(e[0].path, "");
    assert!(e[0].message.contains("`version` is missing"));

    // bad capability token
    let doc = material_loop_manifest();
    let doc = changed(&doc, &["data_points", "1", "min_capability"], Some(j(r#""S9""#)));
    let e = schema_errors(&doc);
    assert_eq!(e[0].path, "data_points[1].min_capability");
    assert!(e[0].message.contains("S9"));

    // unknown axis
    let doc = material_loop_manifest();
    let doc = changed(&doc, &["axes"], Some(j(r#"["zodiac"]"#)));
    let e = schema_errors(&doc);
    assert_eq!(e[0].path, "axes[0]");

    // legal basis missing its instrument
    let doc = material_loop_manifest();
    let doc = without(&doc, &["legal_basis", "0", "instrument"]);
    let e = schema_errors(&doc);
    assert_eq!(e[0].path, "legal_basis[0]");
    assert!(e[0].message.contains("`instrument` is missing"));

    // traversal depth must be a non-negative integer
    let doc = material_loop_manifest();
    let doc = changed(&doc, &["data_points", "0", "traversal_depth"], Some(j(r#"-1"#)));
    let e = schema_errors(&doc);
    assert_eq!(e[0].path, "data_points[0].traversal_depth");
    // and a non-integer
    let doc = material_loop_manifest();
    let doc = changed(&doc, &["data_points", "0", "traversal_depth"], Some(j(r#""many""#)));
    let e = schema_errors(&doc);
    assert!(e.iter().any(|x| x.path == "data_points[0].traversal_depth"));

    // cardinality must match the binding grammar
    let doc = material_loop_manifest();
    let doc = changed(&doc, &["data_points", "0", "cardinality"], Some(j(r#""several""#)));
    let e = schema_errors(&doc);
    assert!(e.iter().any(|x| x.path == "data_points[0].cardinality"));

    // fresh_within must be an ISO 8601 duration
    let doc = material_loop_manifest();
    let doc = changed(&doc, &["data_points", "0", "fresh_within"], Some(j(r#""tomorrow-ish""#)));
    let e = schema_errors(&doc);
    assert!(e.iter().any(|x| x.path == "data_points[0].fresh_within"));

    // fact predicate without a predicate_ref
    let doc = material_loop_manifest();
    let doc = without(&doc, &["triggers", "0", "predicate_ref"]);
    let e = schema_errors(&doc);
    assert!(e
        .iter()
        .any(|x| x.path == "triggers[0]" && x.message.contains("`predicate_ref` is missing")));

    // time trigger missing its duration / bad basis / bad operator
    let doc = time_trigger_manifest("1.0.0", "manufactured_at", ">=", "P40Y");
    let doc = without(&doc, &["triggers", "0", "duration"]);
    let e = schema_errors(&doc);
    assert!(e
        .iter()
        .any(|x| x.path == "triggers[0]" && x.message.contains("`duration` is missing")));
    let doc = time_trigger_manifest("1.0.0", "sold_at", ">=", "P40Y");
    let e = schema_errors(&doc);
    assert!(e.iter().any(|x| x.path == "triggers[0].basis"));
    let doc = time_trigger_manifest("1.0.0", "manufactured_at", "==", "P40Y");
    let e = schema_errors(&doc);
    assert!(e.iter().any(|x| x.path == "triggers[0].operator"));

    // subject capability must be on the ladder
    let doc = material_loop_manifest();
    let doc = changed(&doc, &["subject_capability"], Some(j(r#""silent""#)));
    let e = schema_errors(&doc);
    assert!(e.iter().any(|x| x.path == "subject_capability"));

    // whole-manifest type error
    assert!(!schema_errors(&j(r#"{}"#)).is_empty());
    assert!(!schema_errors(&j(r#"[1]"#)).is_empty());
}

#[test]
fn typed_parse_rejects_what_the_schema_rejects() {
    assert!(ProfileManifest::from_json(&j(r#"{}"#)).is_err());
    let doc = material_loop_manifest();
    let doc = changed(&doc, &["data_points"], Some(j(r#""none""#)));
    assert!(ProfileManifest::from_json(&doc).is_err());
    assert!(ProfileManifest::from_json(&j(r#"{"version": "1", "axes": [3]}"#)).is_err());
}

#[test]
fn a_served_schema_carries_its_instant() {
    let at_instant = Timestamp::parse("2026-09-01T00:00:00Z").unwrap();
    let stamped = stamped_schema(profile_manifest_schema(), at_instant);
    assert_eq!(text_at(&stamped, &["as_of"]), "2026-09-01T00:00:00Z");
    assert_eq!(without(&stamped, &["as_of"]), profile_manifest_schema());
}
