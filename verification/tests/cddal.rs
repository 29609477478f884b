use unidpp_registry::cddal::{
    escape_value, negotiate, parse, render, unescape_value, Representation, TermEntry,
};
use unidpp_registry::json::Json;
use unidpp_registry::model::{Item, ItemClass, ItemVersion, Status};
use unidpp_registry::time::Timestamp;

fn j(s: &str) -> Json {
    Json::parse(s).unwrap()
}

fn ts(s: &str) -> Timestamp {
    Timestamp::parse(s).unwrap()
}

fn version(number: &str, from: &str, status: Status) -> ItemVersion {
    ItemVersion {
        version: number.to_string(),
        status,
        effective_from: Some(ts(from)),
        effective_until: None,
        registered_at: Some(ts("2026-09-01T00:00:00Z")),
        superseded_by_version: None,
        notes: None,
    }
}

fn item(id: &str, register: &str, class: ItemClass, manifest: Option<Json>) -> Item {
    Item {
        identifier: id.to_string(),
        register: register.to_string(),
        item_class: class,
        title: format!("{id} definition"),
        submitting_organization: Some("submitting org".to_string()),
        versions: vec![version("1.0.0", "2026-01-01T00:00:00Z", Status::Valid)],
        manifest,
    }
}

fn round_trip(item: &Item) -> TermEntry {
    let entry = TermEntry::of(item, None);
    let parsed = parse(&render(std::slice::from_ref(&entry))).unwrap();
    assert_eq!(parsed.len(), 1);
    assert_eq!(parsed[0], entry, "round trip of `{}`", item.identifier);
    entry
}

#[test]
fn round_trips_every_item_class() {
    // Data element: UNTDED-shaped manifest (representation) plus
    // a unit reference.
    let data_element = item(
        "urn:untded:de:1000",
        "untded",
        ItemClass::DataElement,
        Some(j(r#"{
            "version": "1.0.0",
            "name": "Document name",
            "tag": 1000,
            "representation": "an..35"
        }"#)),
    );
    let entry = round_trip(&data_element);
    assert_eq!(entry.name, "Document name");
    assert_eq!(entry.representation.as_deref(), Some("an..35"));
    // Unit reference via the closed key set.
    let with_unit = item(
        "de/lot-mass",
        "unidpp-dev",
        ItemClass::DataElement,
        Some(j(r#"{"version": "1.0.0", "required_unit": "units:kg"}"#)),
    );
    assert_eq!(round_trip(&with_unit).unit.as_deref(), Some("units:kg"));

    // Unit: UnitsML-shaped manifest (symbol).
    let unit = item(
        "unitsml:u:kilowatt_hour",
        "unitsml",
        ItemClass::Unit,
        Some(j(r#"{
            "version": "1.0.0",
            "name": "kilowatt hour",
            "symbol": "kW·h",
            "quantity_kind": "energy"
        }"#)),
    );
    let entry = round_trip(&unit);
    assert_eq!(entry.unit_symbol.as_deref(), Some("kW·h"));
    assert_eq!(entry.representation, None, "units carry no representation");

    // Profile / crypto suite / transform / trust anchor: bare
    // items and manifest-bearing ones.
    round_trip(&item(
        "eu-espr-textiles",
        "unidpp-dev",
        ItemClass::Profile,
        None,
    ));
    round_trip(&item(
        "eu-espr-textiles",
        "unidpp-dev",
        ItemClass::Profile,
        Some(j(r#"{"version": "1.0.0", "subject_capability": "S2"}"#)),
    ));
    round_trip(&item("ed25519", "unidpp-dev", ItemClass::CryptoSuite, None));
    round_trip(&item(
        "recycled-mass-balance",
        "unidpp-dev",
        ItemClass::Transform,
        None,
    ));
    round_trip(&item("ta-nist", "unidpp-dev", ItemClass::TrustAnchor, None));

    // Model: the EXPRESS-deposit manifest is not in the CDDAL
    // subset — identity, slots and version still round-trip.
    round_trip(&item(
        "unidpp-core-express",
        "unidpp-seed",
        ItemClass::Model,
        Some(j(r#"{"version": "0.1.0", "express": {"source": "SCHEMA x;"}}"#)),
    ));

    // Cross-register mapping: the mapping manifest stays in
    // JSON; the mapping item's own dictionary slots round-trip.
    round_trip(&item(
        "urn:unidpp:map:gb4943-iec62368",
        "unidpp",
        ItemClass::CrossRegisterMapping,
        Some(j(r#"{
            "version": "1.0.0",
            "source": {"register": "gb-std", "item": "gb-4943-1"},
            "target": {"register": "iec", "item": "iec-62368-1"},
            "mapping_type": "equivalent"
        }"#)),
    ));

    // An item with an IRDI.
    let irdi = item(
        "de-crm-identity",
        "unidpp-dev",
        ItemClass::DataElement,
        Some(j(r#"{"version": "1.0.0", "irdi": "0173-1#01-AAB000#001"}"#)),
    );
    assert_eq!(
        round_trip(&irdi).irdi.as_deref(),
        Some("0173-1#01-AAB000#001")
    );
}

#[test]
fn canonical_form_is_exact_bytes() {
    let mut element = item(
        "urn:untded:de:1000",
        "untded",
        ItemClass::DataElement,
        Some(j(r#"{"version": "1.0.0", "name": "Document name", "representation": "an..35"}"#)),
    );
    element.submitting_organization = None;
    element.versions[0].effective_from = None;
    let entry = TermEntry::of(&element, None);
    let expected = [
        "TERM urn:untded:de:1000\n",
        "  register: untded\n",
        "  class: data-element\n",
        "  name: Document name\n",
        "  definition: urn:untded:de:1000 definition\n",
        "  representation: an..35\n",
        "  version: 1.0.0\n",
        "  status: valid\n",
        "  registered_at: 2026-09-01T00:00:00Z\n",
        "END\n",
    ]
    .join("");
    assert_eq!(render(std::slice::from_ref(&entry)), expected);
    // Byte-determinism: two renders of the same entry are
    // byte-identical.
    assert_eq!(
        render(std::slice::from_ref(&entry)),
        render(std::slice::from_ref(&entry))
    );
}

#[test]
fn values_with_escapable_characters_round_trip() {
    let mut tricky = item(
        "tricky",
        "unidpp-dev",
        ItemClass::DataElement,
        Some(j(r#"{"version": "1.0.0", "name": "back\\slash and\nnewline and\rcr"}"#)),
    );
    tricky.title = "definition: with: colons and \\ backslash".to_string();
    let entry = TermEntry::of(&tricky, None);
    assert_eq!(entry.name, "back\\slash and\nnewline and\rcr");
    let parsed = parse(&render(std::slice::from_ref(&entry))).unwrap();
    assert_eq!(parsed[0], entry);
}

#[test]
fn version_resolution_matches_the_json_view_rule() {
    let mut v1 = version("1.0.0", "2026-01-01T00:00:00Z", Status::Superseded);
    v1.superseded_by_version = Some("2.0.0".into());
    let v2 = version("2.0.0", "2028-01-01T00:00:00Z", Status::Valid);
    let mut item = item("windows", "unidpp-dev", ItemClass::Profile, None);
    item.versions = vec![v1, v2];

    // before any window: nothing in force
    let entry = TermEntry::of(&item, Some(ts("2025-06-01T00:00:00Z")));
    assert_eq!(entry.version, None);
    // during 1.0.0's window
    let entry = TermEntry::of(&item, Some(ts("2027-06-01T00:00:00Z")));
    assert_eq!(entry.version.as_ref().unwrap().version, "1.0.0");
    assert_eq!(entry.version.as_ref().unwrap().status, "superseded");
    // after 2.0.0 takes over
    let entry = TermEntry::of(&item, Some(ts("2029-01-01T00:00:00Z")));
    assert_eq!(entry.version.as_ref().unwrap().version, "2.0.0");
    // no `at`: current registered version (2.0.0 is valid)
    let entry = TermEntry::of(&item, None);
    assert_eq!(entry.version.as_ref().unwrap().version, "2.0.0");
    // all of them round-trip, including the version-less form
    for at in [
        Some(ts("2025-06-01T00:00:00Z")),
        Some(ts("2027-06-01T00:00:00Z")),
        None,
    ] {
        let entry = TermEntry::of(&item, at);
        assert_eq!(
            parse(&render(std::slice::from_ref(&entry))).unwrap()[0],
            entry
        );
    }
}

#[test]
fn document_with_many_entries_round_trips_in_order() {
    let items = [
        item(
            "b-second",
            "unidpp-dev",
            ItemClass::Unit,
            Some(j(r#"{"symbol": "s"}"#)),
        ),
        item(
            "a-first",
            "untded",
            ItemClass::DataElement,
            Some(j(r#"{"name": "n"}"#)),
        ),
        item("c-third", "unidpp-dev", ItemClass::Profile, None),
    ];
    let entries: Vec<TermEntry> = items.iter().map(|i| TermEntry::of(i, None)).collect();
    assert_eq!(parse(&render(&entries)).unwrap(), entries);
}

#[test]
fn parser_rejects_malformed_documents() {
    // unknown field
    assert!(parse(
        "TERM x\n  register: r\n  class: unit\n  name: n\n  definition: d\n  bogus: 1\nEND\n"
    )
    .unwrap_err()
    .contains("unknown field `bogus`"));
    // duplicate field
    assert!(parse("TERM x\n  register: r\n  register: r2\n  class: unit\n  name: n\n  definition: d\nEND\n")
        .unwrap_err()
        .contains("duplicate field `register`"));
    // missing required field
    assert!(
        parse("TERM x\n  register: r\n  class: unit\n  name: n\nEND\n")
            .unwrap_err()
            .contains("missing required field `definition`")
    );
    // unterminated block (with and without trailing newline —
    // the trailing newline surfaces as the blank-line error,
    // the more precise diagnostic)
    assert!(parse("TERM x\n  register: r\n")
        .unwrap_err()
        .contains("blank line inside"));
    assert!(parse("TERM x\n  register: r")
        .unwrap_err()
        .contains("unterminated"));
    // END without TERM
    assert!(parse("END\n")
        .unwrap_err()
        .contains("END without a term block"));
    // field outside a block
    assert!(parse("  register: r\n")
        .unwrap_err()
        .contains("outside a term block"));
    // blank line inside a block
    assert!(parse("TERM x\n\nEND\n")
        .unwrap_err()
        .contains("blank line inside"));
    // empty value
    assert!(parse("TERM x\n  register: \nEND\n")
        .unwrap_err()
        .contains("empty value"));
    // invalid escape
    assert!(parse("TERM x\n  register: r\\q\nEND\n")
        .unwrap_err()
        .contains("invalid escape"));
    // unknown item class
    assert!(
        parse("TERM x\n  register: r\n  class: gadget\n  name: n\n  definition: d\nEND\n")
            .unwrap_err()
            .contains("unknown item class `gadget`")
    );
    // unknown status
    assert!(parse("TERM x\n  register: r\n  class: unit\n  name: n\n  definition: d\n  version: 1\n  status: draft\nEND\n")
        .unwrap_err()
        .contains("unknown status `draft`"));
    // status without version
    assert!(parse("TERM x\n  register: r\n  class: unit\n  name: n\n  definition: d\n  status: valid\nEND\n")
        .unwrap_err()
        .contains("without `version`"));
    // non-RFC 3339 stamp
    assert!(parse("TERM x\n  register: r\n  class: unit\n  name: n\n  definition: d\n  version: 1\n  status: valid\n  effective_from: Yesterday\nEND\n")
        .unwrap_err()
        .contains("not RFC 3339"));
    // TERM inside a block
    assert!(parse("TERM x\nTERM y\nEND\n")
        .unwrap_err()
        .contains("TERM inside a term block"));
    // garbage line
    assert!(parse("hello\n")
        .unwrap_err()
        .contains("not a term-block line"));
    // empty document is fine
    assert_eq!(parse("").unwrap(), Vec::<TermEntry>::new());
    assert_eq!(parse("\n\n").unwrap(), Vec::<TermEntry>::new());
}

#[test]
fn negotiation_matrix() {
    // absent / empty → JSON, silent
    assert_eq!(negotiate(None), (Representation::Json, false));
    assert_eq!(negotiate(Some("  ")), (Representation::Json, false));
    // default-ish forms → JSON, silent
    assert_eq!(negotiate(Some("*/*")), (Representation::Json, false));
    assert_eq!(negotiate(Some("application/json")), (Representation::Json, false));
    assert_eq!(negotiate(Some("APPLICATION/JSON")), (Representation::Json, false));
    assert_eq!(
        negotiate(Some("application/json;q=0.9, text/plain;q=0.1")),
        (Representation::Json, false)
    );
    // CDDAL, alone and in lists, with parameters, any case
    assert_eq!(negotiate(Some("text/cddal")), (Representation::Cddal, false));
    assert_eq!(negotiate(Some("TEXT/CDDAL")), (Representation::Cddal, false));
    assert_eq!(negotiate(Some("text/cddal; charset=utf-8")), (Representation::Cddal, false));
    assert_eq!(
        negotiate(Some("application/json, text/cddal;q=0.5")),
        (Representation::Cddal, false)
    );
    // unknown types → JSON + fallback warning
    assert_eq!(negotiate(Some("application/ld+json")), (Representation::Json, true));
    assert_eq!(negotiate(Some("application/xml")), (Representation::Json, true));
    assert_eq!(negotiate(Some("text/plain")), (Representation::Json, true));
    assert_eq!(
        negotiate(Some("application/yaml, application/xml")),
        (Representation::Json, true)
    );
    // a known type alongside unknown ones stays silent
    assert_eq!(
        negotiate(Some("application/xml, application/json")),
        (Representation::Json, false)
    );
}

#[test]
fn entry_follows_the_item() {
    let mut plain = item("plain", "unidpp-dev", ItemClass::Profile, None);
    plain.submitting_organization = None;
    let entry = TermEntry::of(&plain, None);
    assert_eq!(entry.identifier, "plain");
    assert_eq!(entry.name, "plain definition");
    assert_eq!(entry.definition, "plain definition");
}

#[test]
fn fields_come_in_the_canonical_order() {
    let good = "TERM x\n  register: r\n  class: unit\n  name: n\n  definition: d\nEND\n";
    assert_eq!(parse(good).unwrap().len(), 1);
    let swapped = "TERM x\n  class: unit\n  register: r\n  name: n\n  definition: d\nEND\n";
    assert_eq!(parse(swapped).unwrap_err(), "line 3: field `register` is out of order");
    // A field that is there already is named as a duplicate.
    let twice = "TERM x\n  register: r\n  class: unit\n  register: r\n";
    assert_eq!(parse(twice).unwrap_err(), "line 4: duplicate field `register`");
}

#[test]
fn every_error_names_a_line() {
    assert_eq!(parse("TERM x").unwrap_err(), "line 1: unterminated term block at end of document");
    assert_eq!(
        parse("\nTERM x\n  register: r").unwrap_err(),
        "line 3: unterminated term block at end of document"
    );
    assert_eq!(parse("\nEND\n").unwrap_err(), "line 2: END without a term block");
    for bad in ["x", "TERM ", "TERM x\n\n", "  name: n", "TERM x\n  name\n", "TERM x\nEND\n"] {
        let e = parse(bad).unwrap_err();
        let number = e.strip_prefix("line ").unwrap().split(':').next().unwrap();
        let number = number.parse::<usize>().unwrap();
        assert!(1 <= number && number <= bad.split('\n').count(), "{bad:?}: {e}");
    }
}

#[test]
fn escaped_values_stay_on_their_line() {
    let mut odd = item("odd", "unidpp-dev", ItemClass::Profile, None);
    odd.title = "a\\b\nc\rd".to_string();
    let text = render(&[TermEntry::of(&odd, None)]);
    assert!(!text.contains('\r'));
    assert!(text.contains("a\\\\b\\nc\\rd"));
    assert_eq!(round_trip(&odd).definition, odd.title);
}

#[test]
fn values_are_escaped_and_read_back() {
    for value in ["", "plain", "a\\b", "line\nfeed", "carriage\rreturn", "\\n", "\r\n\\"] {
        let mut out = String::from("<");
        escape_value(value, &mut out);
        assert!(!out.contains('\n') && !out.contains('\r'));
        assert_eq!(unescape_value(&out[1..]), Ok(value.to_string()));
    }
    assert_eq!(unescape_value("\\x").unwrap_err(), "invalid escape `\\x`");
    assert_eq!(unescape_value("x\\").unwrap_err(), "trailing escape at end of value");
}
