use mcp_system_monitor::json::{escape, to_bytes, to_pretty_bytes, Json};
use mcp_system_monitor::jparse::parse_json;

fn parse(s: &str) -> Json {
    parse_json(s.as_bytes()).expect("document should parse")
}

fn roundtrip(s: &str) -> Vec<u8> {
    let v = parse(s);
    to_bytes(&v)
}

#[test]
fn serializes_leaves() {
    assert_eq!(to_bytes(&Json::Null), b"null");
    assert_eq!(to_bytes(&Json::Bool(true)), b"true");
    assert_eq!(to_bytes(&Json::Bool(false)), b"false");
    assert_eq!(to_bytes(&Json::Int(0)), b"0");
    assert_eq!(to_bytes(&Json::Int(-42)), b"-42");
    assert_eq!(to_bytes(&Json::Int(i64::MIN)), b"-9223372036854775808");
    assert_eq!(to_bytes(&Json::Str(b"hi".to_vec())), b"\"hi\"");
}

#[test]
fn serializes_structures() {
    let v = Json::Obj(vec![
        (b"a".to_vec(), Json::Arr(vec![Json::Int(1), Json::Int(2)])),
        (b"b".to_vec(), Json::Obj(vec![])),
    ]);
    assert_eq!(to_bytes(&v), b"{\"a\":[1,2],\"b\":{}}");
}

#[test]
fn pretty_matches_two_space_style() {
    let v = Json::Obj(vec![
        (b"a".to_vec(), Json::Arr(vec![Json::Int(1)])),
        (b"b".to_vec(), Json::Int(2)),
    ]);
    let expected = "{\n  \"a\": [\n    1\n  ],\n  \"b\": 2\n}";
    assert_eq!(String::from_utf8(to_pretty_bytes(&v)).unwrap(), expected);
}

#[test]
fn escapes_specials() {
    assert_eq!(escape(b"a\"b\\c"), b"a\\\"b\\\\c");
    assert_eq!(escape(b"line\nbreak\ttab"), b"line\\nbreak\\ttab");
    assert_eq!(escape(&[0x01u8]), b"\\u0001");
}

#[test]
fn parses_and_reserializes_verbatim_tokens() {
    assert_eq!(roundtrip("{\"a\":1}"), b"{\"a\":1}");
    assert_eq!(roundtrip(" { \"a\" : [ 1 , 2.5 , \"x\\n\" ] } "), b"{\"a\":[1,2.5,\"x\\n\"]}");
    // Non-canonical numbers keep their spelling.
    assert_eq!(roundtrip("[1e3,-0,0.10]"), b"[1e3,-0,0.10]");
    // Canonical integers become integers.
    match parse("7") {
        Json::Int(n) => assert_eq!(n, 7),
        _ => panic!("expected an integer"),
    }
    match parse("-0") {
        Json::Num(t) => assert_eq!(t, b"-0"),
        _ => panic!("expected a raw number token"),
    }
}

#[test]
fn rejects_malformed_documents() {
    assert!(parse_json(b"").is_none());
    assert!(parse_json(b"{").is_none());
    assert!(parse_json(b"[1,]").is_none());
    assert!(parse_json(b"{\"a\":}").is_none());
    assert!(parse_json(b"\"unterminated").is_none());
    assert!(parse_json(b"nul").is_none());
    assert!(parse_json(b"1 2").is_none());
    assert!(parse_json(b"{\"a\" 1}").is_none());
}

#[test]
fn parses_nested_documents() {
    let v = parse("{\"o\":{\"k\":[null,true,false]},\"n\":-12}");
    match &v {
        Json::Obj(ms) => {
            assert_eq!(ms.len(), 2);
            assert_eq!(ms[0].0, b"o");
        }
        _ => panic!("expected an object"),
    }
    assert_eq!(to_bytes(&v), b"{\"o\":{\"k\":[null,true,false]},\"n\":-12}");
}
