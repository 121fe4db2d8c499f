use mcp_system_monitor::jparse::parse_request;
use mcp_system_monitor::json::Json;
use mcp_system_monitor::protocol::{
    decode_request, response_to_bytes, Id, MCPError, MCPResponse,
};

#[test]
fn decodes_a_full_request() {
    let req = parse_request(
        b"{\"jsonrpc\":\"2.0\",\"id\":\"test-1\",\"method\":\"getSystemInfo\",\"params\":{}}",
    )
    .expect("should decode");
    assert_eq!(req.jsonrpc, b"2.0");
    assert_eq!(req.method, b"getSystemInfo");
    match req.id {
        Some(Id::Str(t)) => assert_eq!(t, b"test-1"),
        _ => panic!("expected a string identifier"),
    }
    match req.params {
        Json::Obj(ms) => assert!(ms.is_empty()),
        _ => panic!("expected object params"),
    }
}

#[test]
fn id_forms_are_kept_apart() {
    let num = parse_request(b"{\"jsonrpc\":\"2.0\",\"id\":7,\"method\":\"m\"}").unwrap();
    assert!(matches!(num.id, Some(Id::Num(7))));
    let absent = parse_request(b"{\"jsonrpc\":\"2.0\",\"method\":\"m\"}").unwrap();
    assert!(absent.id.is_none());
    // A literal null identifier is normalized to the absent form.
    let null = parse_request(b"{\"jsonrpc\":\"2.0\",\"id\":null,\"method\":\"m\"}").unwrap();
    assert!(null.id.is_none());
    // Other identifier shapes are malformed.
    assert!(parse_request(b"{\"jsonrpc\":\"2.0\",\"id\":1.5,\"method\":\"m\"}").is_none());
    assert!(parse_request(b"{\"jsonrpc\":\"2.0\",\"id\":[],\"method\":\"m\"}").is_none());
}

#[test]
fn missing_members_fail_decoding() {
    assert!(parse_request(b"{\"jsonrpc\":\"2.0\",\"id\":1}").is_none());
    assert!(parse_request(b"{\"id\":1,\"method\":\"m\"}").is_none());
    assert!(parse_request(b"[]").is_none());
    assert!(parse_request(b"not json at all").is_none());
}

#[test]
fn params_default_to_an_empty_object() {
    let req = parse_request(b"{\"jsonrpc\":\"2.0\",\"id\":1,\"method\":\"m\"}").unwrap();
    assert!(matches!(req.params, Json::Obj(ms) if ms.is_empty()));
}

#[test]
fn duplicate_members_let_the_last_win() {
    let v = mcp_system_monitor::jparse::parse_json(b"{\"method\":\"a\",\"method\":\"b\",\"jsonrpc\":\"2.0\"}")
        .unwrap();
    let req = decode_request(&v).unwrap();
    assert_eq!(req.method, b"b");
}

#[test]
fn encodes_success_and_failure_envelopes() {
    let ok = MCPResponse {
        jsonrpc: b"2.0".to_vec(),
        id: Some(Id::Str(b"test-1".to_vec())),
        result: Some(Json::Obj(vec![])),
        error: None,
    };
    assert_eq!(
        response_to_bytes(&ok),
        b"{\"jsonrpc\":\"2.0\",\"id\":\"test-1\",\"result\":{}}"
    );
    let err = MCPResponse {
        jsonrpc: b"2.0".to_vec(),
        id: Some(Id::Num(7)),
        result: None,
        error: Some(MCPError {
            code: -32601,
            message: b"Method not found".to_vec(),
            data: None,
        }),
    };
    assert_eq!(
        response_to_bytes(&err),
        &b"{\"jsonrpc\":\"2.0\",\"id\":7,\"error\":{\"code\":-32601,\"message\":\"Method not found\",\"data\":null}}"[..]
    );
}

#[test]
fn numeric_identifiers_are_not_quoted() {
    let body = b"{\"jsonrpc\":\"2.0\",\"id\":41,\"method\":\"m\"}";
    let req = parse_request(body).unwrap();
    let resp = MCPResponse {
        jsonrpc: b"2.0".to_vec(),
        id: req.id,
        result: Some(Json::Null),
        error: None,
    };
    assert_eq!(response_to_bytes(&resp), b"{\"jsonrpc\":\"2.0\",\"id\":41,\"result\":null}");
}

#[test]
fn error_messages_are_escaped_in_output() {
    let err = MCPResponse {
        jsonrpc: b"2.0".to_vec(),
        id: None,
        result: None,
        error: Some(MCPError {
            code: -32603,
            message: b"bad \"quote\"\n".to_vec(),
            data: None,
        }),
    };
    let bytes = response_to_bytes(&err);
    let text = String::from_utf8(bytes).unwrap();
    assert!(text.contains("bad \\\"quote\\\"\\n"));
}
