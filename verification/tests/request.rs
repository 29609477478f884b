use unidpp_registry::json::Json;
use unidpp_registry::model::ItemClass;
use unidpp_registry::request::{
    body_class, body_title, opt_bool, opt_object, opt_query, opt_str, opt_ts, parse_at, parse_body, parse_count,
    req_str, require_admin, validate_token, Params, Refusal,
};
use unidpp_registry::table::Table;
use unidpp_registry::time::Timestamp;

fn j(s: &str) -> Json {
    Json::parse(s).unwrap()
}

fn params(pairs: &[(&str, &str)]) -> Params {
    let mut q: Params = Table::new();
    for (k, v) in pairs {
        q.insert(k.to_string(), v.to_string());
    }
    q
}

#[test]
fn bodies_are_json_objects() {
    assert_eq!(parse_body(r#"{"a": 1}"#), Ok(j(r#"{"a": 1}"#)));
    assert!(matches!(parse_body("not json"), Err(Refusal::BadRequest(_))));
    assert!(matches!(parse_body(""), Err(Refusal::BadRequest(_))));
}

#[test]
fn required_texts_are_trimmed() {
    let v = j(r#"{"item_id": "  x  ", "blank": "  ", "n": 3}"#);
    assert_eq!(req_str(&v, "item_id"), Ok("x".to_string()));
    assert!(matches!(req_str(&v, "blank"), Err(Refusal::BadRequest(_))));
    assert!(matches!(req_str(&v, "n"), Err(Refusal::BadRequest(_))));
    assert!(matches!(req_str(&v, "missing"), Err(Refusal::BadRequest(_))));
}

#[test]
fn optional_members_may_be_absent_or_null() {
    let v = j(r#"{"s": "x", "z": null, "b": false, "o": {"k": 1}, "t": "2026-01-01T00:00:00Z"}"#);
    assert_eq!(opt_str(&v, "s"), Ok(Some("x".to_string())));
    assert_eq!(opt_str(&v, "z"), Ok(None));
    assert_eq!(opt_str(&v, "missing"), Ok(None));
    assert!(opt_str(&v, "b").is_err());
    assert_eq!(opt_bool(&v, "b"), Ok(Some(false)));
    assert_eq!(opt_bool(&v, "z"), Ok(None));
    assert!(opt_bool(&v, "s").is_err());
    assert_eq!(opt_ts(&v, "t"), Ok(Some(Timestamp::parse("2026-01-01T00:00:00Z").unwrap())));
    assert!(opt_ts(&v, "s").is_err());
    assert_eq!(opt_object(&v, "o"), Ok(Some(j(r#"{"k": 1}"#))));
    assert!(opt_object(&v, "s").is_err());
}

#[test]
fn titles_and_classes_are_read() {
    assert_eq!(body_title(&j(r#"{"definition": "d"}"#)), Ok("d".to_string()));
    assert!(body_title(&j("{}")).is_err());
    assert_eq!(body_class(&j(r#"{"class": "units"}"#), None), Ok(ItemClass::Unit));
    assert_eq!(body_class(&j("{}"), Some(ItemClass::Profile)), Ok(ItemClass::Profile));
    assert!(body_class(&j(r#"{"class": "unit"}"#), Some(ItemClass::Profile)).is_err());
    assert!(body_class(&j(r#"{"class": "gadget"}"#), None).is_err());
    assert!(body_class(&j("{}"), None).is_err());
}

#[test]
fn tokens_are_path_segments() {
    let long = "x".repeat(256);
    assert_eq!(validate_token("urn:unidpp:de:1", "item_id"), Ok(()));
    assert_eq!(validate_token(&long, "item_id"), Ok(()));
    assert_eq!(validate_token(&"é".repeat(256), "item_id"), Ok(()));
    assert!(validate_token(&"é".repeat(257), "item_id").is_err());
    for bad in ["", "a/b", "a b", "a\tb", &format!("{long}x")] {
        assert_eq!(
            validate_token(bad, "item_id"),
            Err(Refusal::BadRequest("`item_id` must be 1-256 characters without `/` or whitespace".to_string()))
        );
    }
}

#[test]
fn the_instant_has_an_alias() {
    let t = Timestamp::parse("2026-01-01T00:00:00Z").unwrap();
    assert_eq!(parse_at(&params(&[("at", "2026-01-01T00:00:00Z")])), Ok(Some(t)));
    assert_eq!(parse_at(&params(&[("asof", "2026-01-01T00:00:00Z")])), Ok(Some(t)));
    assert_eq!(parse_at(&params(&[])), Ok(None));
    assert_eq!(parse_at(&params(&[("at", "")])), Ok(None));
    assert!(matches!(parse_at(&params(&[("at", "yesterday")])), Err(Refusal::BadRequest(_))));
}

#[test]
fn blank_parameters_do_not_count() {
    let q = params(&[("register", " x "), ("class", "  ")]);
    assert_eq!(opt_query(&q, "register"), Some("x".to_string()));
    assert_eq!(opt_query(&q, "class"), None);
    assert_eq!(opt_query(&q, "other"), None);
}

#[test]
fn only_the_token_opens_the_register() {
    assert_eq!(require_admin(None, None), Ok(()));
    assert_eq!(require_admin(Some("s3cret"), Some("Bearer s3cret")), Ok(()));
    for header in [None, Some("s3cret"), Some("Bearer wrong"), Some("bearer s3cret"), Some("Bearer s3cretx")] {
        assert_eq!(require_admin(Some("s3cret"), header), Err(Refusal::Unauthorized));
    }
}

#[test]
fn counts_are_decimal() {
    assert_eq!(parse_count("100"), Some(100));
    assert_eq!(parse_count("+7"), Some(7));
    for bad in ["", "+", "-1", "1.5", "x", "99999999999999999999999"] {
        assert_eq!(parse_count(bad), None, "{bad}");
    }
}

#[test]
fn refusals_have_their_status_and_document() {
    let now = Timestamp::parse("2026-01-01T00:00:00Z").unwrap();
    let cases = [
        (Refusal::BadRequest("b".to_string()), 400, r#"{"error": "b"}"#),
        (Refusal::Unauthorized, 401, r#"{"error": "unauthorized"}"#),
        (Refusal::NotFound("n".to_string()), 404, r#"{"error": "n"}"#),
        (Refusal::Conflict("c".to_string()), 409, r#"{"error": "c"}"#),
        (Refusal::Rejected(Vec::new()), 400, r#"{"error": "intake validation failed", "errors": []}"#),
    ];
    for (refusal, status, body) in cases {
        let reply = refusal.into_reply(now);
        assert_eq!(reply.status, status);
        assert_eq!(reply.as_of, now);
        assert_eq!(reply.body, j(body));
    }
}
