//! The verdict wire format: encoding, parsing, and their round trip.

use docuforce::json::encode_string_list;
use docuforce::json::encode_verdict;
use docuforce::json::parse_string_list;
use docuforce::json::parse_verdict;
use docuforce::CacheEntry;

fn entry(name: &str, confidence: &str, hash: &str, errors: &[&str], warnings: &[&str]) -> CacheEntry {
    CacheEntry {
        name: name.to_string(),
        confidence: confidence.to_string(),
        hash: hash.to_string(),
        errors: errors.iter().map(|s| s.to_string()).collect(),
        warnings: warnings.iter().map(|s| s.to_string()).collect(),
    }
}

#[test]
fn encode_is_compact_fixed_order() {
    let e = entry("f", "0.9", "abc", &["fix this"], &[]);
    assert_eq!(
        encode_verdict(&e),
        "{\"name\":\"f\",\"confidence\":0.9,\"hash\":\"abc\",\"errors\":[\"fix this\"],\"warnings\":[]}"
    );
}

#[test]
fn parse_assessor_payload() {
    let text = "{\"name\":\"f\",\"confidence\":0.9,\"hash\":\"deadbeef\",\"errors\":[\"Parameter 'x' is missing in documentation\"],\"warnings\":[]}";
    let e = parse_verdict(text).expect("canonical verdict should parse");
    assert_eq!(e.name, "f");
    assert_eq!(e.confidence, "0.9");
    assert_eq!(e.hash, "deadbeef");
    assert_eq!(e.errors, vec!["Parameter 'x' is missing in documentation".to_string()]);
    assert!(e.warnings.is_empty());
}

#[test]
fn parse_tolerates_surrounding_whitespace() {
    let text = "\n  {\"name\":\"g\",\"confidence\":1,\"hash\":\"h\",\"errors\":[],\"warnings\":[\"w\"]}\n";
    let e = parse_verdict(text).expect("trimmed verdict should parse");
    assert_eq!(e.name, "g");
    assert_eq!(e.confidence, "1");
    assert_eq!(e.warnings, vec!["w".to_string()]);
}

#[test]
fn parse_tolerates_whitespace_between_tokens() {
    let text = "{\n  \"name\": \"f\",\n  \"confidence\": 0.9,\n  \"hash\": \"h1\",\n  \"errors\": [\n    \"first\",\n    \"second\"\n  ],\n  \"warnings\": [ ]\n}";
    let e = parse_verdict(text).expect("pretty-printed verdict should parse");
    assert_eq!(e.name, "f");
    assert_eq!(e.confidence, "0.9");
    assert_eq!(e.hash, "h1");
    assert_eq!(e.errors, vec!["first".to_string(), "second".to_string()]);
    assert!(e.warnings.is_empty());
}

#[test]
fn parse_accepts_standard_simple_escapes() {
    let text = "{\"name\":\"a\\/b\",\"confidence\":0.5,\"hash\":\"h\",\"errors\":[\"x\\by\\fz\"],\"warnings\":[]}";
    let e = parse_verdict(text).expect("solidus, backspace and form feed escapes decode");
    assert_eq!(e.name, "a/b");
    assert_eq!(e.errors, vec!["x\u{0008}y\u{000C}z".to_string()]);
}

#[test]
fn list_parsing_tolerates_whitespace() {
    assert_eq!(
        parse_string_list("[ \"a\" ,\n \"b\" ]").unwrap(),
        vec!["a".to_string(), "b".to_string()]
    );
    assert_eq!(parse_string_list("[ ]").unwrap(), Vec::<String>::new());
}

#[test]
fn verdict_round_trips() {
    let e = entry(
        "tricky \"name\"\\with\nescapes",
        "0.85",
        "0123abcd",
        &["first fix", "second\tfix"],
        &["maybe\r", ""],
    );
    let back = parse_verdict(&encode_verdict(&e)).expect("own encoding should parse");
    assert_eq!(back.name, e.name);
    assert_eq!(back.confidence, e.confidence);
    assert_eq!(back.hash, e.hash);
    assert_eq!(back.errors, e.errors);
    assert_eq!(back.warnings, e.warnings);
}

#[test]
fn parse_rejects_malformed_payloads() {
    // surrounding prose
    assert!(parse_verdict("the verdict is {\"name\":\"f\",\"confidence\":0.9,\"hash\":\"h\",\"errors\":[],\"warnings\":[]}").is_none());
    // reordered fields
    assert!(parse_verdict("{\"confidence\":0.9,\"name\":\"f\",\"hash\":\"h\",\"errors\":[],\"warnings\":[]}").is_none());
    // missing field
    assert!(parse_verdict("{\"name\":\"f\",\"confidence\":0.9,\"hash\":\"h\",\"errors\":[]}").is_none());
    // confidence above one
    assert!(parse_verdict("{\"name\":\"f\",\"confidence\":1.5,\"hash\":\"h\",\"errors\":[],\"warnings\":[]}").is_none());
    // negative confidence
    assert!(parse_verdict("{\"name\":\"f\",\"confidence\":-0.5,\"hash\":\"h\",\"errors\":[],\"warnings\":[]}").is_none());
    // list of non-strings
    assert!(parse_verdict("{\"name\":\"f\",\"confidence\":0.9,\"hash\":\"h\",\"errors\":[1],\"warnings\":[]}").is_none());
    // trailing garbage
    assert!(parse_verdict("{\"name\":\"f\",\"confidence\":0.9,\"hash\":\"h\",\"errors\":[],\"warnings\":[]}x").is_none());
    // empty input
    assert!(parse_verdict("").is_none());
}

#[test]
fn confidence_boundaries() {
    assert!(parse_verdict("{\"name\":\"f\",\"confidence\":0,\"hash\":\"h\",\"errors\":[],\"warnings\":[]}").is_some());
    assert!(parse_verdict("{\"name\":\"f\",\"confidence\":1.00,\"hash\":\"h\",\"errors\":[],\"warnings\":[]}").is_some());
    assert!(parse_verdict("{\"name\":\"f\",\"confidence\":0.0001,\"hash\":\"h\",\"errors\":[],\"warnings\":[]}").is_some());
    assert!(parse_verdict("{\"name\":\"f\",\"confidence\":1.01,\"hash\":\"h\",\"errors\":[],\"warnings\":[]}").is_none());
}

#[test]
fn string_lists_round_trip() {
    let lists: Vec<Vec<String>> = vec![
        vec![],
        vec!["".to_string()],
        vec!["one".to_string()],
        vec!["a\"b".to_string(), "c\\d".to_string(), "e\nf".to_string()],
    ];
    for items in lists {
        let encoded = encode_string_list(&items);
        let back = parse_string_list(&encoded).expect("own encoding should parse");
        assert_eq!(back, items);
    }
}

#[test]
fn string_list_encoding_shape() {
    assert_eq!(encode_string_list(&vec![]), "[]");
    assert_eq!(
        encode_string_list(&vec!["a".to_string(), "b\nc".to_string()]),
        "[\"a\",\"b\\nc\"]"
    );
    assert_eq!(parse_string_list("[\"a\",\"b\\nc\"]").unwrap(), vec!["a", "b\nc"]);
    assert!(parse_string_list("[\"a\",]").is_none());
    assert!(parse_string_list("[\"a\"").is_none());
}
