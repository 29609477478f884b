use unidpp_registry::journal::ending_of;
use unidpp_registry::json::Json;
use unidpp_registry::model::{ApplicabilityBinding, Item, ItemClass, ItemVersion, Status};
use unidpp_registry::store::{AuditRecord, Op, Store, StoreError};
use unidpp_registry::time::Timestamp;

fn j(s: &str) -> Json {
    Json::parse(s).unwrap()
}

/// The value at a path of keys and indices.
fn at<'a>(v: &'a Json, path: &[&str]) -> &'a Json {
    let mut here = v;
    for step in path {
        here = match here {
            Json::Arr(a) => &a[step.parse::<usize>().unwrap()],
            other => other.get(step).unwrap(),
        };
    }
    here
}

fn text_at<'a>(v: &'a Json, path: &[&str]) -> &'a str {
    at(v, path).as_str().unwrap()
}

fn ts(s: &str) -> Timestamp {
    Timestamp::parse(s).unwrap()
}

fn now() -> Timestamp {
    ts("2026-09-03T00:00:00Z")
}

fn profile_item(id: &str, version: &str, from: &str) -> Item {
    Item {
        identifier: id.to_string(),
        register: "unidpp-dev".to_string(),
        item_class: ItemClass::Profile,
        title: format!("{id} profile"),
        submitting_organization: None,
        versions: vec![ItemVersion {
            version: version.to_string(),
            status: Status::Valid,
            effective_from: Some(ts(from)),
            effective_until: None,
            registered_at: Some(ts("2026-09-01T00:00:00Z")),
            superseded_by_version: None,
            notes: None,
        }],
        manifest: None,
    }
}

fn successor(version: &str, from: &str, reason: &str) -> ItemVersion {
    ItemVersion {
        version: version.to_string(),
        status: Status::Valid,
        effective_from: Some(ts(from)),
        effective_until: None,
        registered_at: Some(ts("2026-09-02T00:00:00Z")),
        superseded_by_version: None,
        notes: Some(reason.to_string()),
    }
}

#[test]
fn register_and_lookup() {
    let mut store = Store::new();
    store
        .register_item(profile_item("eu-espr-textiles", "1.0.0", "2026-10-18T00:00:00Z"), now())
        .unwrap();
    assert!(store.item("eu-espr-textiles").is_some());
    assert!(store.item("nope").is_none());
    assert_eq!(store.log_len(), 1);
    // duplicate registration conflicts
    let err = store
        .register_item(profile_item("eu-espr-textiles", "2.0.0", "2027-01-01T00:00:00Z"), now())
        .unwrap_err();
    assert!(matches!(err, StoreError::Conflict(_)));
}

#[test]
fn supersede_transitions_the_old_version() {
    let mut store = Store::new();
    store
        .register_item(profile_item("p", "0.9.0", "2026-01-01T00:00:00Z"), now())
        .unwrap();
    store
        .supersede(
            "p",
            "0.9.0",
            successor("1.0.0", "2026-07-01T00:00:00Z", "consolidated edition"),
            None,
            now(),
        )
        .unwrap();
    let item = store.item("p").unwrap();
    let old = item.version("0.9.0").unwrap();
    assert_eq!(old.status, Status::Superseded);
    assert_eq!(old.superseded_by_version.as_deref(), Some("1.0.0"));
    // derived window end
    assert_eq!(
        item.window_until(old),
        Some(ts("2026-07-01T00:00:00Z"))
    );
    assert_eq!(item.current_version().unwrap().version, "1.0.0");
    assert_eq!(store.log_len(), 2);
}

#[test]
fn supersede_rejects_bad_targets() {
    let mut store = Store::new();
    store
        .register_item(profile_item("p", "0.9.0", "2026-01-01T00:00:00Z"), now())
        .unwrap();
    store
        .supersede("p", "0.9.0", successor("1.0.0", "2026-07-01T00:00:00Z", "r"), None, now())
        .unwrap();
    // unknown target
    assert!(matches!(
        store.supersede("p", "9.9.9", successor("2.0.0", "2027-01-01T00:00:00Z", "r"), None, now()),
        Err(StoreError::Invalid(_))
    ));
    // already-superseded target
    assert!(matches!(
        store.supersede("p", "0.9.0", successor("2.0.0", "2027-01-01T00:00:00Z", "r"), None, now()),
        Err(StoreError::Invalid(_))
    ));
    // duplicate version number
    assert!(matches!(
        store.supersede("p", "1.0.0", successor("1.0.0", "2027-01-01T00:00:00Z", "r"), None, now()),
        Err(StoreError::Conflict(_))
    ));
    // window start before the superseded version's window start
    assert!(matches!(
        store.supersede("p", "1.0.0", successor("2.0.0", "2026-06-01T00:00:00Z", "r"), None, now()),
        Err(StoreError::Invalid(_))
    ));
}

#[test]
fn bind_validates_profile_items() {
    let mut store = Store::new();
    store
        .register_item(profile_item("p", "1.0.0", "2026-01-01T00:00:00Z"), now())
        .unwrap();
    store
        .register_item(Item {
            identifier: "unit-kwh".into(),
            register: "unidpp-dev".into(),
            item_class: ItemClass::Unit,
            title: "kilowatt hour".into(),
            submitting_organization: None,
            versions: profile_item("p", "1.0.0", "2026-01-01T00:00:00Z").versions,
            manifest: None,
        }, now())
        .unwrap();
    let binding = |profile: &str| ApplicabilityBinding {
        id: 0,
        subject: "gtin:06901234000016".into(),
        profile_item: profile.into(),
        register: None,
        profile_version: None,
        effective_from: Some(ts("2026-01-01T00:00:00Z")),
        effective_until: None,
        registered_at: Some(ts("2026-09-01T00:00:00Z")),
        retroactive: false,
    };
    // unknown profile item
    assert!(matches!(
        store.bind(binding("nope"), now()),
        Err(StoreError::Invalid(_))
    ));
    // wrong class
    assert!(matches!(
        store.bind(binding("unit-kwh"), now()),
        Err(StoreError::Invalid(_))
    ));
    // good binding gets a sequential id
    let rec = store.bind(binding("p"), now()).unwrap();
    match &rec.op {
        Op::BindApplicability { binding } => assert_eq!(binding.id, 1),
        _ => panic!("expected a bind record"),
    }
    // pinned version must exist
    let mut pinned = binding("p");
    pinned.profile_version = Some("9.9.9".into());
    assert!(matches!(store.bind(pinned, now()), Err(StoreError::Invalid(_))));
}

#[test]
fn journal_round_trip() {
    let lines = {
        let mut store = Store::new();
        store
            .register_item(profile_item("p", "0.9.0", "2026-01-01T00:00:00Z"), now())
            .unwrap();
        store
            .supersede(
                "p",
                "0.9.0",
                successor("1.0.0", "2026-07-01T00:00:00Z", "consolidated edition"),
                Some(j(r#"{"profile_id": "p", "version": "1.0.0"}"#)),
            now(),
            )
            .unwrap();
        let binding = ApplicabilityBinding {
            id: 0,
            subject: "gtin:06901234000016".into(),
            profile_item: "p".into(),
            register: Some("unidpp-dev".into()),
            profile_version: Some("1.0.0".into()),
            effective_from: Some(ts("1996-01-01T00:00:00Z")),
            effective_until: None,
            registered_at: Some(ts("2026-05-01T00:00:00Z")),
            retroactive: true,
        };
        store.bind(binding, now()).unwrap();
        store.journal_from(0)
    };
    let (store, faults) = Store::open(&lines);
    assert!(faults.is_empty());
    assert_eq!(store.log_len(), 3);
    let item = store.item("p").unwrap();
    assert_eq!(item.versions.len(), 2);
    assert_eq!(item.version("0.9.0").unwrap().status, Status::Superseded);
    assert_eq!(text_at(item.manifest.as_ref().unwrap(), &["version"]), "1.0.0");
    assert_eq!(store.bindings_for("gtin:06901234000016").len(), 1);
    assert_eq!(store.bindings_for("gtin:06901234000016")[0].id, 1);
}

#[test]
fn log_pages_are_cut_from_the_log() {
    let mut store = Store::new();
    for id in ["a", "b", "c"] {
        store.register_item(profile_item(id, "1.0.0", "2026-01-01T00:00:00Z"), now()).unwrap();
    }
    let page = store.log_json(2, 1);
    let records = at(&page, &["records"]).as_array().unwrap();
    assert_eq!(at(&page, &["total"]).as_u64(), Some(3));
    assert_eq!(records.len(), 2);
    assert_eq!(text_at(&records[0], &["op"]), "register-item");
    assert!(at(&store.log_json(10, 3), &["records"]).as_array().unwrap().is_empty());
}

#[test]
fn a_broken_journal_line_is_reported_and_skipped() {
    let mut store = Store::new();
    store.register_item(profile_item("p", "1.0.0", "2026-01-01T00:00:00Z"), now()).unwrap();
    let mut lines = store.journal_from(0);
    lines.insert(0, "not json".to_string());
    lines.push("   ".to_string());
    lines.push("{}".to_string());
    let (again, faults) = Store::open(&lines);
    assert_eq!(faults.len(), 2);
    assert_eq!(again.log_len(), 1);
    assert_eq!(again.item("p"), store.item("p"));
}

#[test]
fn audit_records_round_trip() {
    let mut store = Store::new();
    let rec = store.register_item(profile_item("p", "1.0.0", "2026-01-01T00:00:00Z"), now()).unwrap();
    assert_eq!(rec.op.name(), "register-item");
    let json = Json::parse(&rec.journal_line()).unwrap();
    assert_eq!(json, rec.to_json());
    assert_eq!(AuditRecord::from_json(&json).unwrap(), rec);
}

#[test]
fn items_are_listed_by_class_and_register() {
    let mut store = Store::new();
    store.register_item(profile_item("b", "1.0.0", "2026-01-01T00:00:00Z"), now()).unwrap();
    store.register_item(profile_item("a", "1.0.0", "2026-01-01T00:00:00Z"), now()).unwrap();
    let ids: Vec<&str> = store.items_filtered(None, None).iter().map(|i| i.identifier.as_str()).collect();
    assert_eq!(ids, vec!["a", "b"]);
    assert!(store.items_filtered(Some(ItemClass::Unit), None).is_empty());
    assert_eq!(store.items_filtered(Some(ItemClass::Profile), Some("unidpp-dev")).len(), 2);
    assert!(store.items_filtered(None, Some("other")).is_empty());
}

#[test]
fn a_record_behind_a_torn_line_is_replayed() {
    let mut store = Store::new();
    store.register_item(profile_item("a", "1.0.0", "2026-01-01T00:00:00Z"), now()).unwrap();
    let mut lines = store.journal_from(0);
    let torn: String = lines[0].chars().take(20).collect();
    lines.push(torn);
    let (mut again, faults) = Store::open(&lines);
    assert_eq!(faults.len(), 1);
    assert!(faults[0].starts_with("journal line 2: "), "{}", faults[0]);
    let before = again.log_len();
    again.register_item(profile_item("b", "1.0.0", "2026-01-01T00:00:00Z"), now()).unwrap();
    lines.extend(again.journal_from(before));
    let (last, faults) = Store::open(&lines);
    assert_eq!(faults.len(), 1);
    assert_eq!(last.log_len(), 2);
    assert_eq!(last.item("a"), again.item("a"));
    assert_eq!(last.item("b"), again.item("b"));
}

#[test]
fn a_journal_text_brings_the_store_back() {
    let mut store = Store::new();
    store.register_item(profile_item("a", "1.0.0", "2026-01-01T00:00:00Z"), now()).unwrap();
    let text = store.journal_text(0);
    assert!(text.ends_with('\n'));
    assert_eq!(text.lines().count(), 1);
    assert_eq!(ending_of(&text), "");
    assert_eq!(ending_of(""), "");
    let (again, faults) = Store::recover(&text);
    assert!(faults.is_empty());
    assert_eq!(again.item("a"), store.item("a"));
    assert_eq!(again.log_len(), 1);

    // A crash tears the last line; it is ended before the next record.
    let mut torn = format!("{text}{}", &text[..20]);
    let ending = ending_of(&torn);
    assert_eq!(ending, "\n");
    torn.push_str(&ending);
    let (mut next, faults) = Store::recover(&torn);
    assert_eq!(faults.len(), 1);
    next.register_item(profile_item("b", "1.0.0", "2026-01-01T00:00:00Z"), now()).unwrap();
    torn.push_str(&next.journal_text(1));
    let (last, faults) = Store::recover(&torn);
    assert_eq!(faults.len(), 1);
    assert_eq!(last.log_len(), 2);
    assert_eq!(last.item("b"), next.item("b"));
}

#[test]
fn a_manifest_with_a_fraction_is_journaled() {
    let mut item = profile_item("f", "1.0.0", "2026-01-01T00:00:00Z");
    item.manifest = Some(j(r#"{"version": "1.0.0", "share": 0.25, "note": "two\nlines"}"#));
    let mut store = Store::new();
    store.register_item(item, now()).unwrap();
    let (again, faults) = Store::recover(&store.journal_text(0));
    assert!(faults.is_empty());
    assert_eq!(again.item("f"), store.item("f"));
}
