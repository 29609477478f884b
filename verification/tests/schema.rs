use unidpp_registry::json::Json;
use unidpp_registry::schema::{is_cardinality, validate, SchemaError, CARDINALITY_PATTERN, DURATION_PATTERN};

fn j(s: &str) -> Json {
    Json::parse(s).unwrap()
}

/// The document with the value at a path replaced, or taken out.
fn changed(v: &Json, path: &[&str], value: Option<Json>) -> Json {
    match v {
        Json::Arr(a) => {
            let i = path[0].parse::<usize>().unwrap();
            let mut out = a.clone();
            out[i] = if path.len() == 1 { value.unwrap() } else { changed(&a[i], &path[1..], value) };
            Json::Arr(out)
        }
        Json::Obj(o) => {
            let mut out = o.clone();
            if path.len() > 1 {
                let inner = changed(o.get(path[0]).unwrap(), &path[1..], value);
                out.insert(path[0].to_string(), inner);
            } else {
                match value {
                    Some(x) => out.insert(path[0].to_string(), x),
                    None => out.remove(path[0]),
                }
            }
            Json::Obj(out)
        }
        _ => panic!("no such path"),
    }
}

fn errs(schema: &Json, doc: &Json) -> Vec<SchemaError> {
    validate(schema, doc).unwrap_err()
}

#[test]
fn checker_supports_the_keyword_subset_the_schemas_use() {
    // Every keyword that the generated schemas use.
    let schema = j(r##"{
        "type": "object",
        "required": ["k"],
        "properties": {
            "k": {"type": ["string", "null"], "enum": ["a", "b", null]},
            "list": {"type": "array", "minItems": 1, "items": {"type": "integer", "minimum": 0}},
            "s": {"type": "string", "minLength": 2},
            "card": {"type": "string", "pattern": ""},
            "dur": {"type": "string", "pattern": ""},
            "tag": {"const": "fixed"}
        },
        "additionalProperties": false,
        "allOf": [{
            "if": {"properties": {"k": {"const": "a"}}, "required": ["k"]},
            "then": {"required": ["s"]}
        }],
        "$defs": {"inner": {"type": "object", "required": ["z"], "properties": {"z": {"type": "string"}}}},
        "properties_extra_ignored": true
    }"##);
    let schema = changed(&schema, &["properties", "card", "pattern"], Some(Json::str(CARDINALITY_PATTERN)));
    let schema = changed(&schema, &["properties", "dur", "pattern"], Some(Json::str(DURATION_PATTERN)));
    // A fully-valid document.
    assert!(validate(
        &schema,
        &j(r#"{"k": "a", "s": "ok", "list": [1], "card": "1..n", "dur": "P40Y", "tag": "fixed"}"#)
    )
    .is_ok());
    // Each keyword's failure carries the right path.
    let e = errs(&schema, &j(r#"{"k": "c"}"#));
    assert!(e
        .iter()
        .any(|x| x.path == "k" && x.message.contains("not one of")));
    // if/then: k == "a" requires s
    let e = errs(&schema, &j(r#"{"k": "a"}"#));
    assert!(e
        .iter()
        .any(|x| x.path.is_empty() && x.message.contains("`s` is missing")));
    let e = errs(&schema, &j(r#"{"k": "a", "s": "ok", "list": []}"#));
    assert!(e
        .iter()
        .any(|x| x.path == "list" && x.message.contains("fewer than")));
    let e = errs(&schema, &j(r#"{"k": "a", "s": "ok", "list": [-1]}"#));
    assert!(e
        .iter()
        .any(|x| x.path == "list[0]" && x.message.contains("below the minimum")));
    let e = errs(&schema, &j(r#"{"k": "a", "s": "x"}"#));
    assert!(e
        .iter()
        .any(|x| x.path == "s" && x.message.contains("shorter than")));
    let e = errs(&schema, &j(r#"{"k": "a", "s": "ok", "card": "lots"}"#));
    assert!(e
        .iter()
        .any(|x| x.path == "card" && x.message.contains("pattern")));
    let e = errs(&schema, &j(r#"{"k": "a", "s": "ok", "dur": "40Y"}"#));
    assert!(e
        .iter()
        .any(|x| x.path == "dur" && x.message.contains("pattern")));
    let e = errs(&schema, &j(r#"{"k": "a", "s": "ok", "extra": 1}"#));
    assert!(e
        .iter()
        .any(|x| x.message.contains("`extra` is not allowed")));
    // if/then: k == "b" does not require s.
    assert!(validate(&schema, &j(r#"{"k": "b"}"#)).is_ok());
    // wrong type with a type array
    let e = errs(&schema, &j(r#"{"k": 5}"#));
    assert!(e
        .iter()
        .any(|x| x.path == "k" && x.message.contains("expected string | null")));
    // null accepted by the type array
    assert!(validate(&schema, &j(r#"{"k": null, "tag": "fixed"}"#)).is_ok());
}

#[test]
fn refs_resolve_against_the_schema_root() {
    let schema = j(r##"{
        "type": "object",
        "required": ["inner"],
        "properties": {"inner": {"$ref": "#/$defs/inner"}},
        "$defs": {"inner": {"type": "object", "required": ["z"], "properties": {"z": {"type": "string"}}}}
    }"##);
    assert!(validate(&schema, &j(r#"{"inner": {"z": "v"}}"#)).is_ok());
    let e = errs(&schema, &j(r#"{"inner": {}}"#));
    assert_eq!(e[0].path, "inner");
    assert!(e[0].message.contains("`z` is missing"));
    // unknown $ref targets are ignored (not a crash)
    let dangling = j(r##"{"$ref": "#/$defs/nope"}"##);
    assert!(validate(&dangling, &j(r#"{"any": 1}"#)).is_ok());
}

#[test]
fn cardinality_pattern_forms() {
    for ok in ["1", "0..1", "1..n", "2..n", "10..20"] {
        assert!(is_cardinality(ok), "{ok} should be a cardinality");
    }
    for bad in ["", "n", "1..", "..2", "a..b", "1...2", "one"] {
        assert!(!is_cardinality(bad), "{bad} should not be a cardinality");
    }
}

#[test]
fn a_number_may_be_an_integer() {
    let schema = j(r#"{"type": "number"}"#);
    assert!(validate(&schema, &j("5")).is_ok());
    assert!(validate(&schema, &j("5.5")).is_ok());
    assert_eq!(errs(&schema, &j("\"5\""))[0].message, "expected number but found string");
    let schema = j(r#"{"type": "integer"}"#);
    assert!(validate(&schema, &j("5")).is_ok());
    assert_eq!(errs(&schema, &j("5.5"))[0].message, "expected integer but found number");
    assert!(validate(&j(r#"{"type": ["null", "number"]}"#), &j("-3")).is_ok());
}

#[test]
fn zeros_of_either_sign_are_one_value() {
    assert!(validate(&j(r#"{"const": 0.0}"#), &j("-0.0")).is_ok());
    assert!(validate(&j(r#"{"enum": [1.5, -0.0]}"#), &j("0.0")).is_ok());
    assert_eq!(errs(&j(r#"{"const": 0}"#), &j("0.0")).len(), 1);
    assert_eq!(errs(&j(r#"{"enum": [1.5]}"#), &j("2.5")).len(), 1);
}
