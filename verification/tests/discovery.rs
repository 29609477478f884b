use unidpp_registry::discovery::{
    key_id, operator_id, operator_public_key, operator_record, parse_protocol_body, parse_service_body,
    parse_verification_body, payload, sign_body, DiscoveryError, Endpoint, OperatorKeyring, OperatorRef, ServiceClass,
    ServiceDescriptor, ServiceStatus, ServiceVersion, SignatureValue,
};
use unidpp_registry::json::{Json, Object};
use unidpp_registry::time::Timestamp;

fn j(s: &str) -> Json {
    Json::parse(s).unwrap()
}

/// The value at a path of keys and indices.
fn at<'a>(v: &'a Json, path: &[&str]) -> &'a Json {
    let mut here = v;
    for step in path {
        here = match here {
            Json::Arr(a) => &a[step.parse::<usize>().unwrap()],
            other => other.get(step).unwrap(),
        };
    }
    here
}

fn text_at<'a>(v: &'a Json, path: &[&str]) -> &'a str {
    at(v, path).as_str().unwrap()
}

/// The document with the value at a path replaced, or taken out.
fn changed(v: &Json, path: &[&str], value: Option<Json>) -> Json {
    match v {
        Json::Arr(a) => {
            let i = path[0].parse::<usize>().unwrap();
            let mut out = a.clone();
            out[i] = if path.len() == 1 { value.unwrap() } else { changed(&a[i], &path[1..], value) };
            Json::Arr(out)
        }
        Json::Obj(o) => {
            let mut out = o.clone();
            if path.len() > 1 {
                let inner = changed(o.get(path[0]).unwrap(), &path[1..], value);
                out.insert(path[0].to_string(), inner);
            } else {
                match value {
                    Some(x) => out.insert(path[0].to_string(), x),
                    None => out.remove(path[0]),
                }
            }
            Json::Obj(out)
        }
        _ => panic!("no such path"),
    }
}

fn set(v: &Json, path: &[&str], value: &str) -> Json {
    changed(v, path, Some(j(value)))
}

fn body_template(operator_id_str: &str, public_key_hex: &str, class: &str, uri: &str) -> Json {
    let mut body = j(r#"{
        "identifier": "unidpp-registry",
        "endpoints": [{}],
        "protocol_binding_ref": "pb-rest",
        "jurisdiction": "ZZ",
        "residency_class": "anywhere",
        "status": "active",
        "version": "1.0.0",
        "effective_from": "2026-09-01T00:00:00Z"
    }"#);
    let mut operator = Object::new();
    operator.put_str("id", operator_id_str);
    operator.put_str("key_id", &key_id(&hex_to_32(public_key_hex).unwrap()));
    operator.put_str("public_key", public_key_hex);
    operator.put_str("algorithm", "ed25519");
    body = changed(&body, &["operator"], Some(Json::Obj(operator)));
    body = changed(&body, &["class"], Some(Json::str(class)));
    changed(&body, &["endpoints", "0", "uri"], Some(Json::str(uri)))
}

fn hex_to_32(s: &str) -> Result<[u8; 32], String> {
    if s.len() != 64 {
        return Err("expected 64 hex chars".into());
    }
    let mut out = [0u8; 32];
    for i in 0..32 {
        out[i] = u8::from_str_radix(&s[2 * i..2 * i + 2], 16).map_err(|e| e.to_string())?;
    }
    Ok(out)
}

#[test]
fn service_class_round_trip() {
    for c in ServiceClass::ALL {
        assert_eq!(ServiceClass::parse(c.as_str()), Some(c));
    }
    assert_eq!(ServiceClass::parse("bogus"), None);
    assert_eq!(ServiceClass::MarketplaceGate.as_str(), "marketplace-gate");
}

#[test]
fn keying_is_deterministic() {
    let k1 = OperatorKeyring::seeded_dev();
    let k2 = OperatorKeyring::seeded_dev();
    assert_eq!(k1.operator_ids(), k2.operator_ids());
    // the registry's operator id is in the seeded set
    assert!(k1.operator_ids().iter().any(|id| id == &operator_id_for_label("unidpp-registry")));
}

fn operator_id_for_label(label: &str) -> String {
    operator_id(&operator_public_key(label))
}

#[test]
fn signature_round_trip_and_reject() {
    let kr = OperatorKeyring::seeded_dev();
    let op_id = operator_id_for_label("unidpp-issuer");
    let pk = kr.public_key(&op_id).unwrap();
    let pk_hex: String = pk.iter().map(|b| format!("{b:02x}")).collect();
    let mut body = body_template(&op_id, &pk_hex, "issuer", "https://issuer.example/");
    sign_body(&mut body, "unidpp-issuer", &op_id, &key_id(&pk)).unwrap();
    let sig_val = SignatureValue::from_json(at(&body, &["signature"])).unwrap();
    let bytes = payload(&body);
    kr.verify(&op_id, &bytes, &sig_val.value).unwrap();
    // tamper: signature no longer verifies
    let tampered = changed(&body, &["endpoints", "0", "uri"], Some(j(r#""https://evil.example/""#)));
    let bad_sig = SignatureValue::from_json(at(&tampered, &["signature"])).unwrap();
    let bad_bytes = payload(&tampered);
    assert!(kr.verify(&op_id, &bad_bytes, &bad_sig.value).is_err());
}

#[test]
fn unknown_operator_is_an_error() {
    let kr = OperatorKeyring::seeded_dev();
    let err = kr.verify("op-doesnotexist", b"x", &[0u8; 64]).unwrap_err();
    assert!(matches!(err, DiscoveryError::UnknownOperator(_)));
}

#[test]
fn operator_id_mismatch_in_body_is_rejected() {
    let pk = operator_public_key("unidpp-issuer");
    let pk_hex: String = pk.iter().map(|b| format!("{b:02x}")).collect();
    // claim a different operator id while providing the right key
    let mut operator = Object::new();
    operator.put_str("id", "op-deadbeefdeadbeef");
    operator.put_str("key_id", &key_id(&pk));
    operator.put_str("public_key", &pk_hex);
    operator.put_str("algorithm", "ed25519");
    let body = changed(&j(r#"{"identifier": "x"}"#), &["operator"], Some(Json::Obj(operator)));
    let err = OperatorRef::from_json(at(&body, &["operator"])).unwrap_err();
    assert!(err.contains("does not match"));
}

fn ts(s: &str) -> Timestamp {
    Timestamp::parse(s).unwrap()
}

/// Build a signed service version (operator `unidpp-issuer`).
fn signed_version(version: &str, from: &str, uri: &str) -> ServiceVersion {
    let label = "unidpp-issuer";
    let pk = operator_public_key(label);
    let mut body = j(r#"{
        "identifier": "svc-issuer",
        "class": "issuer",
        "endpoints": [{}],
        "protocol_binding_ref": "pb-tier-a-binary",
        "jurisdiction": "DE",
        "residency_class": "eu",
        "status": "active"
    }"#);
    body = changed(&body, &["operator"], Some(operator_record(label)));
    body = changed(&body, &["endpoints", "0", "uri"], Some(Json::str(uri)));
    sign_body(
        &mut body,
        label,
        &operator_id(&pk),
        &key_id(&pk),
    )
    .expect("sign");
    let signature = SignatureValue::from_json(at(&body, &["signature"])).expect("sig");
    ServiceVersion {
        version: version.to_string(),
        status: ServiceStatus::Active,
        effective_from: ts(from),
        effective_until: None,
        registered_at: ts("2026-09-01T00:00:00Z"),
        superseded_by_version: None,
        body,
        signature,
    }
}

fn issuer_service() -> ServiceDescriptor {
    let mut v1 = signed_version("1.0.0", "2026-01-01T00:00:00Z", "https://v1.example/");
    v1.status = ServiceStatus::Superseded;
    v1.superseded_by_version = Some("2.0.0".into());
    let v2 = signed_version("2.0.0", "2027-01-01T00:00:00Z", "https://v2.example/");
    ServiceDescriptor {
        identifier: "svc-issuer".into(),
        versions: vec![v1, v2],
    }
}

#[test]
fn service_windows_and_point_in_time() {
    let svc = issuer_service();
    assert_eq!(svc.in_force_at(ts("2025-06-01T00:00:00Z")), None);
    assert_eq!(
        svc.in_force_at(ts("2026-06-01T00:00:00Z")).unwrap().version,
        "1.0.0"
    );
    // half-open window: at the boundary the successor rules
    assert_eq!(
        svc.in_force_at(ts("2027-01-01T00:00:00Z")).unwrap().version,
        "2.0.0"
    );
    assert_eq!(svc.current_version().unwrap().version, "2.0.0");
    // derived window end from the successor's effective_from
    let v1 = svc.version("1.0.0").unwrap();
    assert_eq!(
        svc.window_until(v1),
        Some(ts("2027-01-01T00:00:00Z"))
    );
    assert_eq!(svc.window_until(svc.version("2.0.0").unwrap()), None);
}

#[test]
fn service_supersession_chain_whole_and_broken() {
    let svc = issuer_service();
    let chain = svc.supersession_chain(None).unwrap();
    let versions: Vec<&str> = chain.iter().map(|v| v.version.as_str()).collect();
    assert_eq!(versions, vec!["1.0.0", "2.0.0"]);
    assert!(svc.supersession_chain(Some("9.9.9")).is_err());
    let mut broken = svc.clone();
    broken.versions[1].superseded_by_version = Some("9.9.9".into());
    assert!(broken.supersession_chain(None).is_err());
    // from the middle
    assert_eq!(svc.supersession_chain(Some("2.0.0")).unwrap().len(), 1);
}

#[test]
fn service_version_signature_verifies() {
    let kr = OperatorKeyring::seeded_dev();
    let v = signed_version("1.0.0", "2026-01-01T00:00:00Z", "https://v1.example/");
    assert!(v.verify(&kr).is_ok());
    // tamper the body under the stored signature
    let mut tampered = v.clone();
    tampered.body = set(&tampered.body, &["jurisdiction"], "\"CN\"");
    assert!(tampered.verify(&kr).is_err());
}

#[test]
fn service_descriptor_json_round_trip() {
    let svc = issuer_service();
    let round = ServiceDescriptor::from_json_value(&svc.to_json_value()).unwrap();
    assert_eq!(round, svc);
    // the rendered view carries the resolved version and as_of
    let view = svc.to_json(ts("2026-06-01T00:00:00Z"), Some(ts("2026-06-01T00:00:00Z")));
    assert_eq!(text_at(&view, &["kind"]), "service");
    assert_eq!(text_at(&view, &["version", "version"]), "1.0.0");
    assert_eq!(text_at(&view, &["as_of"]), "2026-06-01T00:00:00Z");
    // before any window: null version
    let early = svc.to_json(ts("2020-01-01T00:00:00Z"), Some(ts("2020-01-01T00:00:00Z")));
    assert_eq!(at(&early, &["version"]), &Json::Null);
}

#[test]
fn parse_service_body_validates_shape() {
    let label = "unidpp-issuer";
    let body = j(r#"{"class": "issuer", "endpoints": [{"uri": "https://x/"}]}"#);
    let body = changed(&body, &["operator"], Some(operator_record(label)));
    // identifier defaults to the caller's when absent
    let parsed = parse_service_body(&body, "svc-x").unwrap();
    assert_eq!(parsed.class, ServiceClass::Issuer);
    assert_eq!(parsed.status, ServiceStatus::Active);
    assert_eq!(parsed.endpoints.len(), 1);
    // mismatched identifier is rejected
    let body = changed(&body, &["identifier"], Some(j(r#""svc-other""#)));
    assert!(parse_service_body(&body, "svc-x").is_err());
    // unknown class, missing endpoints, empty endpoints, bad operator
    let body = set(&body, &["identifier"], "null");
    let body = changed(&body, &["class"], Some(j(r#""nope""#)));
    assert!(parse_service_body(&body, "svc-x").is_err());
    let body = changed(&body, &["class"], Some(j(r#""issuer""#)));
    let body = changed(&body, &["endpoints"], Some(j(r#"[]"#)));
    assert!(parse_service_body(&body, "svc-x").is_err());
    let body = set(&body, &["endpoints"], "null");
    assert!(parse_service_body(&body, "svc-x").is_err());
    let body = changed(&body, &["endpoints"], Some(j(r#"[{"uri": "https://x/"}]"#)));
    let body = changed(&body, &["operator"], Some(j(r#"{}"#)));
    assert!(parse_service_body(&body, "svc-x").is_err());
}

#[test]
fn protocol_and_verification_bodies_parse() {
    let pb = parse_protocol_body(&j(r#"{
        "grammar_ref": "https://g/",
        "media_types": ["application/x"],
        "conformance_suite_ref": "https://c/"
    }"#))
    .unwrap();
    assert_eq!(pb.grammar_ref, "https://g/");
    assert_eq!(pb.conformance_suite_ref.as_deref(), Some("https://c/"));
    assert!(parse_protocol_body(&j(r#"{"grammar_ref": "https://g/"}"#)).is_err());

    let vm = parse_verification_body(&j(r#"{
        "suite": "SM2-SM3-SM4",
        "agility_status": "active"
    }"#))
    .unwrap();
    assert_eq!(vm.suite, "SM2-SM3-SM4");
    assert!(vm.trust_framework.is_none());
    assert!(parse_verification_body(&j(r#"{"suite": "x"}"#)).is_err());
}

#[test]
fn operator_helpers_agree_with_keyring() {
    for label in [
        "unidpp-registry",
        "unidpp-issuer",
        "unidpp-cli-verifier",
    ] {
        let pk = operator_public_key(label);
        let record = operator_record(label);
        let kr = OperatorKeyring::seeded_dev();
        assert_eq!(text_at(&record, &["id"]), operator_id(&pk));
        assert!(kr.contains(&operator_id(&pk)), "keyring has {label}");
    }
}

#[test]
fn refused_signatures_are_told_apart() {
    let kr = OperatorKeyring::seeded_dev();
    let op_id = operator_id_for_label("unidpp-issuer");
    // neither a short signature nor a foreign one verifies
    assert!(matches!(kr.verify(&op_id, b"x", &[1u8; 10]), Err(DiscoveryError::BadSignature(_))));
    assert!(matches!(kr.verify(&op_id, b"x", &[0u8; 64]), Err(DiscoveryError::BadSignature(_))));
    assert!(matches!(kr.public_key("op-0000"), Err(DiscoveryError::UnknownOperator(_))));
}

#[test]
fn operator_ids_are_derived_from_the_key() {
    let pk = operator_public_key("unidpp-registry");
    let id = operator_id(&pk);
    assert!(id.starts_with("op-"));
    assert_ne!(id, operator_id(&operator_public_key("unidpp-issuer")));
    assert_ne!(key_id(&pk), id);
    assert_eq!(text_at(&operator_record("unidpp-registry"), &["key_id"]), key_id(&pk));
    let mut kr = OperatorKeyring::new();
    assert!(!kr.contains(&id));
    kr.add("unidpp-registry");
    assert_eq!(kr.get(&id), Some(&pk));
    assert_eq!(kr.operator_ids(), vec![id]);
}

#[test]
fn signing_under_a_foreign_operator_id_is_refused() {
    let mut body = j("{}");
    let pk = operator_public_key("unidpp-issuer");
    assert!(sign_body(&mut body, "unidpp-issuer", "op-0000", &key_id(&pk)).is_err());
    assert_eq!(sign_body(&mut body, "unidpp-issuer", &operator_id(&pk), &key_id(&pk)), Ok(()));
}

#[test]
fn wire_forms_round_trip() {
    for s in ["active", "superseded", "suspended", "succeeded"] {
        assert_eq!(ServiceStatus::parse(s).unwrap().as_str(), s);
    }
    let v = signed_version("1.0.0", "2026-01-01T00:00:00Z", "https://v1.example/");
    assert_eq!(SignatureValue::from_json(&v.signature.to_json()).unwrap(), v.signature);
    assert_eq!(ServiceVersion::from_json_value(&v.to_json(None)).unwrap(), v);
    let e = Endpoint::from_json(&j(r#"{"uri": "https://x/", "media_type": "application/json"}"#)).unwrap();
    assert_eq!(Endpoint::from_json(&e.to_json()).unwrap(), e);
    let o = OperatorRef::from_json(&operator_record("unidpp-issuer")).unwrap();
    assert_eq!(OperatorRef::from_json(&o.to_json()).unwrap(), o);
}

#[test]
fn a_derived_window_end_takes_a_service_version_out_of_force() {
    let mut svc = issuer_service();
    svc.versions[1].effective_until = Some(ts("2028-01-01T00:00:00Z"));
    assert_eq!(svc.in_force_at(ts("2026-12-31T23:59:59Z")).unwrap().version, "1.0.0");
    assert_eq!(svc.in_force_at(ts("2027-06-01T00:00:00Z")).unwrap().version, "2.0.0");
    assert_eq!(svc.in_force_at(ts("2028-01-01T00:00:00Z")), None);
    assert_eq!(svc.in_force_at(ts("2029-01-01T00:00:00Z")), None);
}

#[test]
fn the_keyring_lists_exactly_its_operators() {
    let labels = [
        "unidpp-registry",
        "unidpp-issuer",
        "unidpp-resolver",
        "unidpp-trust",
        "unidpp-log",
        "unidpp-archive",
        "unidpp-cli-verifier",
        "unidpp-edge",
    ];
    let kr = OperatorKeyring::seeded_dev();
    let mut expected: Vec<String> = labels.iter().map(|l| operator_id_for_label(l)).collect();
    expected.sort();
    assert_eq!(kr.operator_ids(), expected);
    assert_eq!(OperatorKeyring::seeded_dev().operator_ids(), expected);
    for label in labels {
        assert_eq!(kr.get(&operator_id_for_label(label)), Some(&operator_public_key(label)));
    }

    // One more operator is merged in, once.
    let mut more = OperatorKeyring::seeded_dev();
    more.add("someone-else");
    expected.push(operator_id_for_label("someone-else"));
    expected.sort();
    assert_eq!(more.operator_ids(), expected);
    more.add("someone-else");
    assert_eq!(more.operator_ids(), expected);
}
