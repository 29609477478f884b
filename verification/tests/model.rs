use unidpp_registry::json::Json;
use unidpp_registry::model::{ApplicabilityBinding, Item, ItemClass, ItemVersion, Status};
use unidpp_registry::time::Timestamp;

fn j(s: &str) -> Json {
    Json::parse(s).unwrap()
}

/// The document with the value at a path replaced, or taken out.
fn changed(v: &Json, path: &[&str], value: Option<Json>) -> Json {
    match v {
        Json::Arr(a) => {
            let i = path[0].parse::<usize>().unwrap();
            let mut out = a.clone();
            out[i] = if path.len() == 1 { value.unwrap() } else { changed(&a[i], &path[1..], value) };
            Json::Arr(out)
        }
        Json::Obj(o) => {
            let mut out = o.clone();
            if path.len() > 1 {
                let inner = changed(o.get(path[0]).unwrap(), &path[1..], value);
                out.insert(path[0].to_string(), inner);
            } else {
                match value {
                    Some(x) => out.insert(path[0].to_string(), x),
                    None => out.remove(path[0]),
                }
            }
            Json::Obj(out)
        }
        _ => panic!("no such path"),
    }
}

fn set(v: &Json, path: &[&str], value: &str) -> Json {
    changed(v, path, Some(j(value)))
}

fn without(v: &Json, path: &[&str]) -> Json {
    changed(v, path, None)
}

fn ts(s: &str) -> Timestamp {
    Timestamp::parse(s).unwrap()
}

fn version(number: &str, from: &str, until: Option<&str>) -> ItemVersion {
    ItemVersion {
        version: number.to_string(),
        status: Status::Valid,
        effective_from: Some(ts(from)),
        effective_until: until.map(ts),
        registered_at: Some(ts("2026-09-01T00:00:00Z")),
        superseded_by_version: None,
        notes: None,
    }
}

/// A profile with a superseded 0.9.0 (explicit window) and a valid 1.0.0.
fn eu_espr() -> Item {
    let mut v09 = version(
        "0.9.0",
        "2026-10-18T00:00:00Z",
        Some("2027-10-18T00:00:00Z"),
    );
    v09.status = Status::Superseded;
    v09.superseded_by_version = Some("1.0.0".into());
    v09.notes = Some("first delegated-act edition".into());
    let mut v10 = version("1.0.0", "2027-10-18T00:00:00Z", None);
    v10.notes = Some("consolidated edition".into());
    Item {
        identifier: "eu-espr-textiles".into(),
        register: "unidpp-dev".into(),
        item_class: ItemClass::Profile,
        title: "EU ESPR textiles jurisdiction profile".into(),
        submitting_organization: Some("CEN-CLC/JTC 24".into()),
        versions: vec![v09, v10],
        manifest: None,
    }
}

#[test]
fn item_class_parses_singular_and_plural() {
    assert_eq!(ItemClass::parse("profile"), Some(ItemClass::Profile));
    assert_eq!(
        ItemClass::parse("crypto-suites"),
        Some(ItemClass::CryptoSuite)
    );
    assert_eq!(ItemClass::parse(" unit "), Some(ItemClass::Unit));
    assert_eq!(ItemClass::parse("bogus"), None);
    assert_eq!(ItemClass::Profile.plural(), "profiles");
    assert_eq!(ItemClass::TrustAnchor.as_str(), "trust-anchor");
    // hyphen and underscore spellings, both numbers
    assert_eq!(ItemClass::parse("model"), Some(ItemClass::Model));
    assert_eq!(ItemClass::parse("models"), Some(ItemClass::Model));
    assert_eq!(
        ItemClass::parse("cross-register-mapping"),
        Some(ItemClass::CrossRegisterMapping)
    );
    assert_eq!(
        ItemClass::parse("cross_register_mapping"),
        Some(ItemClass::CrossRegisterMapping)
    );
    assert_eq!(
        ItemClass::parse("cross-register-mappings"),
        Some(ItemClass::CrossRegisterMapping)
    );
    assert_eq!(ItemClass::Model.plural(), "models");
    assert_eq!(
        ItemClass::CrossRegisterMapping.plural(),
        "cross-register-mappings"
    );
    assert_eq!(ItemClass::ALL.len(), 8);
}

#[test]
fn explicit_window_end_is_preferred_over_derived() {
    let item = eu_espr();
    let v09 = item.version("0.9.0").unwrap();
    // explicit effective_until wins over the successor's from
    assert_eq!(item.window_until(v09), Some(ts("2027-10-18T00:00:00Z")));
}

#[test]
fn derived_window_end_comes_from_the_successor() {
    let mut v1 = version("1.0.0", "2018-06-01T00:00:00Z", None);
    v1.status = Status::Superseded;
    v1.superseded_by_version = Some("2.0.0".into());
    let v2 = version("2.0.0", "2021-06-01T00:00:00Z", None);
    let item = Item {
        identifier: "historic-vehicle".into(),
        register: "unidpp-dev".into(),
        item_class: ItemClass::Profile,
        title: "Historic vehicle profile".into(),
        submitting_organization: None,
        versions: vec![v1, v2],
        manifest: None,
    };
    assert_eq!(
        item.window_until(item.version("1.0.0").unwrap()),
        Some(ts("2021-06-01T00:00:00Z"))
    );
    assert_eq!(item.window_until(item.version("2.0.0").unwrap()), None);
}

#[test]
fn in_force_at_point_in_time() {
    let item = eu_espr();
    assert_eq!(item.in_force_at(ts("2020-01-01T00:00:00Z")), None);
    assert_eq!(
        item.in_force_at(ts("2027-06-01T00:00:00Z"))
            .unwrap()
            .version,
        "0.9.0"
    );
    assert_eq!(
        item.in_force_at(ts("2028-01-01T00:00:00Z"))
            .unwrap()
            .version,
        "1.0.0"
    );
    // half-open window: at the boundary instant the successor rules
    assert_eq!(
        item.in_force_at(ts("2027-10-18T00:00:00Z"))
            .unwrap()
            .version,
        "1.0.0"
    );
}

#[test]
fn current_version_prefers_valid() {
    let item = eu_espr();
    assert_eq!(item.current_version().unwrap().version, "1.0.0");
}

#[test]
fn supersession_chain_whole_and_from_middle() {
    let mut item = eu_espr();
    let mut v2 = version("2.0.0", "2028-10-18T00:00:00Z", None);
    item.version_mut("1.0.0").unwrap().superseded_by_version = Some("2.0.0".into());
    v2.notes = Some("third edition".into());
    item.versions.push(v2);
    let chain = item.supersession_chain(None).unwrap();
    let versions: Vec<&str> = chain.iter().map(|v| v.version.as_str()).collect();
    assert_eq!(versions, vec!["0.9.0", "1.0.0", "2.0.0"]);
    let statuses: Vec<&str> = chain.iter().map(|v| v.status.as_str()).collect();
    assert_eq!(statuses, vec!["superseded", "valid", "valid"]);
    let from_middle = item.supersession_chain(Some("1.0.0")).unwrap();
    assert_eq!(from_middle.len(), 2);
    // unknown start and broken links error
    assert!(item.supersession_chain(Some("9.9.9")).is_err());
    let mut broken = item.clone();
    broken.versions[2].superseded_by_version = Some("9.9.9".into());
    assert!(broken.supersession_chain(None).is_err());
}

#[test]
fn manifest_version_pinning() {
    let mut item = eu_espr();
    assert!(item.manifest_version_pinned(), "no manifest is pinned");
    item.manifest = Some(j(r#"{"profile_id": "eu-espr-textiles", "version": "1.0.0"}"#));
    assert!(item.manifest_version_pinned());
    item.manifest = Some(j(r#"{"version": "99.0.0"}"#));
    assert!(!item.manifest_version_pinned());
    item.manifest = Some(j(r#"{"profile_id": "x"}"#));
    assert!(
        !item.manifest_version_pinned(),
        "no version key is unpinned"
    );
}

#[test]
fn binding_retroactivity_semantics() {
    let mut b = ApplicabilityBinding {
        id: 0,
        subject: "gtin:06901234000016".into(),
        profile_item: "historic-vehicle".into(),
        register: Some("unidpp-dev".into()),
        profile_version: None,
        effective_from: Some(ts("1996-01-01T00:00:00Z")),
        effective_until: None,
        registered_at: Some(ts("2026-05-01T00:00:00Z")),
        retroactive: true,
    };
    // retroactive: applies from effective_from even before registered_at
    assert!(b.applies_at(ts("2005-06-01T00:00:00Z")));
    assert!(!b.applies_at(ts("1995-12-31T23:59:59Z")));
    // non-retroactive: cannot impose obligations before registered_at
    b.retroactive = false;
    assert!(!b.applies_at(ts("2005-06-01T00:00:00Z")));
    assert!(b.applies_at(ts("2027-01-01T00:00:00Z")));
    // effective_until is exclusive
    b.effective_until = Some(ts("2027-01-01T00:00:00Z"));
    assert!(!b.applies_at(ts("2027-01-01T00:00:00Z")));
    assert!(b.applies_at(ts("2026-12-31T23:59:59Z")));
}

#[test]
fn json_round_trip_item_and_binding() {
    let item = eu_espr();
    let round = Item::from_json(&item.to_json()).unwrap();
    assert_eq!(round, item);
    let binding = ApplicabilityBinding {
        id: 7,
        subject: "gtin:06901234000016".into(),
        profile_item: "eu-espr-textiles".into(),
        register: None,
        profile_version: Some("1.0.0".into()),
        effective_from: Some(ts("2026-10-18T00:00:00Z")),
        effective_until: None,
        registered_at: Some(ts("2026-09-01T00:00:00Z")),
        retroactive: false,
    };
    assert_eq!(
        ApplicabilityBinding::from_json(&binding.to_json()).unwrap(),
        binding
    );
    // the derived window_end is ignored on parse
    let v = set(&item.to_json(), &["versions", "0", "window_end"], "\"1999-01-01T00:00:00Z\"");
    assert_eq!(Item::from_json(&v).unwrap(), item);
}

#[test]
fn item_class_names_round_trip() {
    for class in ItemClass::ALL {
        assert_eq!(ItemClass::parse(class.as_str()), Some(class));
        assert_eq!(ItemClass::parse(class.plural()), Some(class));
    }
    assert_eq!(
        ItemClass::help(),
        "data-element, profile, crypto-suite, transform, trust-anchor, unit, model, cross-register-mapping"
    );
}

#[test]
fn status_names_round_trip() {
    for status in Status::VALUES {
        assert_eq!(Status::parse(status.as_str()), Some(status));
    }
    assert_eq!(Status::parse(" retired "), Some(Status::Retired));
    assert_eq!(Status::parse("draft"), None);
}

#[test]
fn versions_order_by_their_effective_instant() {
    let mut item = eu_espr();
    item.versions.reverse();
    let numbers: Vec<&str> = item.ordered_versions().iter().map(|v| v.version.as_str()).collect();
    assert_eq!(numbers, vec!["0.9.0", "1.0.0"]);
    // a version without a start is in force from the beginning
    item.versions[0].effective_from = None;
    assert_eq!(item.in_force_at(ts("1990-01-01T00:00:00Z")).unwrap().version, "1.0.0");
    // and sorts before the earliest start there is
    item.versions[1].effective_from = Some(Timestamp { secs: i64::MIN });
    let numbers: Vec<&str> = item.ordered_versions().iter().map(|v| v.version.as_str()).collect();
    assert_eq!(numbers, vec!["1.0.0", "0.9.0"]);
}

#[test]
fn a_looping_chain_is_refused() {
    let mut item = eu_espr();
    item.version_mut("1.0.0").unwrap().superseded_by_version = Some("0.9.0".into());
    assert!(item.supersession_chain(Some("0.9.0")).is_err());
}

#[test]
fn item_parse_errors_name_the_field() {
    let whole = eu_espr().to_json();
    for key in ["identifier", "register", "item_class", "title"] {
        assert!(Item::from_json(&without(&whole, &[key])).is_err(), "{key}");
    }
    assert!(Item::from_json(&set(&whole, &["item_class"], "\"gadget\"")).is_err());
    assert!(Item::from_json(&set(&whole, &["versions", "0", "status"], "\"draft\"")).is_err());
    assert!(Item::from_json(&set(&whole, &["versions", "0", "effective_from"], "\"soon\"")).is_err());
}
