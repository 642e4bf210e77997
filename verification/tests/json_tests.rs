use iactive::json::parse_json;
use iactive::json::to_json;
use iactive::json::doc_get;
use iactive::json::obj_get;
use iactive::json::JsonDoc;
use iactive::json::JsonValue;

fn str_of(doc: &JsonDoc, key: &str) -> Option<String> {
    match doc_get(doc, key) {
        Some(JsonValue::Str(s)) => Some(s.clone()),
        _ => None,
    }
}

fn nested_of(doc: &JsonDoc, outer: &str, inner: &str) -> Option<String> {
    match doc_get(doc, outer) {
        Some(JsonValue::Obj(m)) => obj_get(m, inner),
        _ => None,
    }
}

#[test]
fn parses_flat_object() {
    let d = parse_json(r#"{"message":"ok","extra":"x"}"#).unwrap();
    assert_eq!(str_of(&d, "message").unwrap(), "ok");
    assert_eq!(str_of(&d, "extra").unwrap(), "x");
    assert!(str_of(&d, "missing").is_none());
}

#[test]
fn parses_nested_object_with_blanks() {
    let d = parse_json(
        " { \"message\" : \"Activated\" ,\n\t\"productKey\" : { \"expiry_date\" : \"2099-01-01T00:00:00Z\" } } ",
    )
    .unwrap();
    assert_eq!(str_of(&d, "message").unwrap(), "Activated");
    assert_eq!(
        nested_of(&d, "productKey", "expiry_date").unwrap(),
        "2099-01-01T00:00:00Z"
    );
}

#[test]
fn parses_empty_object() {
    let d = parse_json("{}").unwrap();
    assert!(str_of(&d, "message").is_none());
}

#[test]
fn parses_escapes() {
    let d = parse_json(r#"{"m":"a\"b\\c\nd\teA"}"#).unwrap();
    assert_eq!(str_of(&d, "m").unwrap(), "a\"b\\c\nd\teA");
}

#[test]
fn rejects_out_of_grammar_bodies() {
    assert!(parse_json("").is_none());
    assert!(parse_json("[]").is_none());
    assert!(parse_json(r#"{"n":1}"#).is_none());
    assert!(parse_json(r#"{"b":true}"#).is_none());
    assert!(parse_json(r#"{"a":"b""#).is_none());
    assert!(parse_json(r#"{"a":"b"} trailing"#).is_none());
    assert!(parse_json(r#"{"a":{"b":{"c":"d"}}}"#).is_none());
}

#[test]
fn serializes_and_reparses() {
    let mut doc = JsonDoc::new();
    doc.push_str_field("activation_key", "PK-1");
    doc.push_str_field("mac_id", "AA:BB:CC:DD:EE:FF");
    let text = to_json(&doc);
    assert_eq!(
        text,
        r#"{"activation_key":"PK-1","mac_id":"AA:BB:CC:DD:EE:FF"}"#
    );
    let back = parse_json(&text).unwrap();
    assert_eq!(str_of(&back, "activation_key").unwrap(), "PK-1");
    assert_eq!(str_of(&back, "mac_id").unwrap(), "AA:BB:CC:DD:EE:FF");
}

#[test]
fn serializer_escapes_specials() {
    let mut doc = JsonDoc::new();
    doc.push_str_field("k", "a\"b\\c\nd");
    let text = to_json(&doc);
    assert_eq!(text, "{\"k\":\"a\\\"b\\\\c\\nd\"}");
    let back = parse_json(&text).unwrap();
    assert_eq!(str_of(&back, "k").unwrap(), "a\"b\\c\nd");
}
