use unidpp_registry::crypto::{hex_decode, hex_lower};
use unidpp_registry::json::{same_json, Json, Object};
use unidpp_registry::schema::validate;

fn j(s: &str) -> Json {
    Json::parse(s).unwrap()
}

#[test]
fn documents_are_read_and_written() {
    let doc = j(r#"{"b": [1, -2, 1.5, true, null], "a": "x\"y"}"#);
    assert_eq!(doc.to_text(), r#"{"a":"x\"y","b":[1,-2,1.5,true,null]}"#);
    assert_eq!(j(&doc.to_text()), doc);
    assert_eq!(doc.get_str("a"), Some("x\"y"));
    assert_eq!(doc.get_arr("b").unwrap().len(), 5);
    assert_eq!(doc.get_arr("b").unwrap()[0].as_u64(), Some(1));
    assert_eq!(doc.get_arr("b").unwrap()[1].as_u64(), None);
}

#[test]
fn faults_are_described() {
    assert_eq!(Json::parse("{").unwrap_err(), "EOF while parsing an object at line 1 column 1");
    assert!(Json::parse("[1,]").is_err());
}

#[test]
fn documents_cross_the_boundary_unchanged() {
    let doc = j(r#"{"n": -9223372036854775808, "u": 18446744073709551615, "f": 0.25, "o": {"k": []}}"#);
    assert_eq!(Json::from_value(doc.to_value()), doc);
    assert_eq!(doc.to_value()["u"], serde_json::Value::from(u64::MAX));
    assert_eq!(doc.to_value()["n"], serde_json::Value::from(i64::MIN));
}

#[test]
fn members_are_kept_in_name_order() {
    let mut o = Object::new();
    o.put_str("b", "2");
    o.put_uint("a", 1);
    o.put_bool("c", true);
    o.put_opt_str("d", &None);
    assert_eq!(Json::Obj(o.clone()).to_text(), r#"{"a":1,"b":"2","c":true}"#);
    o.put_str("b", "3");
    o.remove("a");
    assert_eq!(o.get("a"), None);
    assert_eq!(o.get_str("b"), Some("3"));
    assert_eq!(o.len(), 2);
}

#[test]
fn equal_documents_are_told_from_others() {
    assert!(same_json(&j(r#"{"a": [1, {"b": null}]}"#), &j(r#"{"a": [1, {"b": null}]}"#)));
    assert!(!same_json(&j(r#"{"a": [1]}"#), &j(r#"{"a": [2]}"#)));
    assert!(!same_json(&j("1"), &j("\"1\"")));
    assert!(!same_json(&j(r#"{"a": 1}"#), &j(r#"{"b": 1}"#)));
    assert!(!same_json(&j("1.5"), &j("2.5")));
    // The two float zeros are one value; the integer zero is another.
    assert!(same_json(&j("0.0"), &j("-0.0")));
    assert!(same_json(&j(r#"{"a": [-0.0]}"#), &j(r#"{"a": [0.0]}"#)));
    assert!(!same_json(&j("0"), &j("0.0")));
}

#[test]
fn numbers_below_the_minimum_are_named() {
    let errors = validate(&j(r#"{"type": "integer", "minimum": 0}"#), &j("-1")).unwrap_err();
    assert_eq!(errors.len(), 1);
    assert_eq!(errors[0].message, "value -1 is below the minimum 0");
    assert!(validate(&j(r#"{"minimum": 0}"#), &j("0")).is_ok());
    assert!(validate(&j(r#"{"minimum": 1.5}"#), &j("1.25")).is_err());
}

#[test]
fn hexadecimal_round_trips() {
    let bytes = [0u8, 1, 0x7f, 0x80, 0xff];
    assert_eq!(hex_lower(&bytes), "00017f80ff");
    assert_eq!(hex_decode("00017f80ff"), Some(bytes.to_vec()));
    assert_eq!(hex_decode("00017F80FF"), Some(bytes.to_vec()));
    assert_eq!(hex_decode("0"), None);
    assert_eq!(hex_decode("zz"), None);
    assert_eq!(hex_decode("+f"), None);
    assert_eq!(hex_decode("0+"), None);
    assert_eq!(hex_decode(""), Some(Vec::new()));
}
