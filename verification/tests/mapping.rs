use unidpp_registry::json::Json;
use unidpp_registry::mapping::{integrity_errors, matches_query, parse, validate_manifest, ITEM_CLASS};
use unidpp_registry::model::{Item, ItemClass, ItemVersion, Status};
use unidpp_registry::store::Store;
use unidpp_registry::time::Timestamp;

fn j(s: &str) -> Json {
    Json::parse(s).unwrap()
}

/// The document with the value at a path replaced, or taken out.
fn changed(v: &Json, path: &[&str], value: Option<Json>) -> Json {
    match v {
        Json::Arr(a) => {
            let i = path[0].parse::<usize>().unwrap();
            let mut out = a.clone();
            out[i] = if path.len() == 1 { value.unwrap() } else { changed(&a[i], &path[1..], value) };
            Json::Arr(out)
        }
        Json::Obj(o) => {
            let mut out = o.clone();
            if path.len() > 1 {
                let inner = changed(o.get(path[0]).unwrap(), &path[1..], value);
                out.insert(path[0].to_string(), inner);
            } else {
                match value {
                    Some(x) => out.insert(path[0].to_string(), x),
                    None => out.remove(path[0]),
                }
            }
            Json::Obj(out)
        }
        _ => panic!("no such path"),
    }
}

fn without(v: &Json, path: &[&str]) -> Json {
    changed(v, path, None)
}

fn ts(s: &str) -> Timestamp {
    Timestamp::parse(s).unwrap()
}

fn item(id: &str, register: &str, class: ItemClass) -> Item {
    Item {
        identifier: id.to_string(),
        register: register.to_string(),
        item_class: class,
        title: format!("{id} title"),
        submitting_organization: None,
        versions: vec![ItemVersion {
            version: "1.0.0".to_string(),
            status: Status::Valid,
            effective_from: Some(ts("2026-01-01T00:00:00Z")),
            effective_until: None,
            registered_at: Some(ts("2026-01-01T00:00:00Z")),
            superseded_by_version: None,
            notes: None,
        }],
        manifest: None,
    }
}

fn mapping_manifest() -> Json {
    j(r#"{
        "version": "1.0.0",
        "source": {"register": "gb-std", "item": "gb-4943-1", "version": "1.0.0"},
        "target": {"register": "iec", "item": "iec-62368-1"},
        "mapping_type": "equivalent",
        "attester": "CQC-pattern notified body",
        "evidence_ref": "https://example/evidence"
    }"#)
}

#[test]
fn schema_and_parse_round_trip() {
    let doc = mapping_manifest();
    assert!(validate_manifest(&doc).is_ok());
    let m = parse(&doc).unwrap();
    assert_eq!(m.source.item, "gb-4943-1");
    assert_eq!(m.source.version.as_deref(), Some("1.0.0"));
    assert_eq!(m.target.register.as_deref(), Some("iec"));
    assert_eq!(m.mapping_type, "equivalent");
    assert_eq!(m.attester.as_deref(), Some("CQC-pattern notified body"));
}

#[test]
fn schema_rejects_malformed_mappings_with_paths() {
    let doc = mapping_manifest();
    let doc = changed(&doc, &["mapping_type"], Some(j(r#""same-ish""#)));
    let e = validate_manifest(&doc).unwrap_err();
    assert_eq!(e[0].path, "mapping_type");
    let doc = mapping_manifest();
    let doc = changed(&doc, &["source"], Some(j(r#"{"register": "gb-std"}"#)));
    let e = validate_manifest(&doc).unwrap_err();
    assert!(e
        .iter()
        .any(|x| x.path == "source" && x.message.contains("`item` is missing")));
    let doc = mapping_manifest();
    let doc = without(&doc, &["target"]);
    let e = validate_manifest(&doc).unwrap_err();
    assert!(e
        .iter()
        .any(|x| x.path.is_empty() && x.message.contains("`target` is missing")));
}

#[test]
fn integrity_catches_dangling_references() {
    let mut store = Store::new();
    store
        .register_item(item("gb-4943-1", "gb-std", ItemClass::DataElement), ts("2026-09-01T00:00:00Z"))
        .unwrap();
    let m = parse(&mapping_manifest()).unwrap();
    // target does not exist
    let e = integrity_errors(&m, &store);
    assert_eq!(e.len(), 1);
    assert_eq!(e[0].path, "target.item");
    assert!(e[0].message.contains("dangling"));
    // both ends exist → clean
    store
        .register_item(item("iec-62368-1", "iec", ItemClass::DataElement), ts("2026-09-01T00:00:00Z"))
        .unwrap();
    assert!(integrity_errors(&m, &store).is_empty());
}

#[test]
fn integrity_catches_register_and_version_mismatches() {
    let mut store = Store::new();
    store
        .register_item(item("gb-4943-1", "gb-std", ItemClass::DataElement), ts("2026-09-01T00:00:00Z"))
        .unwrap();
    store
        .register_item(item("iec-62368-1", "iec", ItemClass::DataElement), ts("2026-09-01T00:00:00Z"))
        .unwrap();
    // wrong register claim
    let doc = mapping_manifest();
    let doc = changed(&doc, &["target", "register"], Some(j(r#""cen""#)));
    let e = integrity_errors(&parse(&doc).unwrap(), &store);
    assert_eq!(e[0].path, "target.register");
    // unregistered version pin
    let doc = mapping_manifest();
    let doc = changed(&doc, &["source", "version"], Some(j(r#""9.9.9""#)));
    let e = integrity_errors(&parse(&doc).unwrap(), &store);
    assert_eq!(e[0].path, "source.version");
    // unpinned version (absent) is fine
    let doc = mapping_manifest();
    let doc = without(&doc, &["source", "version"]);
    assert!(integrity_errors(&parse(&doc).unwrap(), &store).is_empty());
}

#[test]
fn lookup_matches_either_direction() {
    let mut store = Store::new();
    store
        .register_item(item("gb-4943-1", "gb-std", ItemClass::DataElement), ts("2026-09-01T00:00:00Z"))
        .unwrap();
    let mut m = item("map-gb-iec", "unidpp-dev", ITEM_CLASS);
    m.manifest = Some(mapping_manifest());
    // by either side
    assert!(matches_query(&m, Some("gb-4943-1"), None, None));
    assert!(matches_query(&m, Some("iec-62368-1"), None, None));
    assert!(!matches_query(&m, Some("other"), None, None));
    // by named side
    assert!(matches_query(&m, None, Some("gb-4943-1"), None));
    assert!(matches_query(&m, None, None, Some("iec-62368-1")));
    assert!(!matches_query(&m, None, Some("iec-62368-1"), None));
    // combined
    assert!(matches_query(
        &m,
        None,
        Some("gb-4943-1"),
        Some("iec-62368-1")
    ));
    // other classes never match
    let not_a_mapping = item("x", "unidpp-dev", ItemClass::Transform);
    assert!(!matches_query(
        &not_a_mapping,
        Some("gb-4943-1"),
        None,
        None
    ));
}
