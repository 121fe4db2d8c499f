use mcp_system_monitor::jparse::parse_request;
use mcp_system_monitor::json::Json;
use mcp_system_monitor::monitor::SystemMonitor;
use mcp_system_monitor::protocol::{Id, MCPResponse};
use mcp_system_monitor::server::MCPServer;
use mcp_system_monitor::stdio::{
    encode_frame, parse_error_frame, reply_bytes, scan_frame, stdio_step, FrameStep,
};

#[test]
fn encodes_a_frame() {
    assert_eq!(encode_frame(b"{}"), b"Content-Length: 2\r\n\r\n{}");
}

#[test]
fn scans_a_complete_frame() {
    let buf = b"Content-Length: 2\r\n\r\n{}extra";
    match scan_frame(buf) {
        FrameStep::Frame { start, len, consumed } => {
            assert_eq!(&buf[start..start + len], b"{}");
            assert_eq!(consumed, 23);
        }
        _ => panic!("expected a complete frame"),
    }
}

#[test]
fn short_body_awaits_more_input() {
    // The header promises 50 bytes; the stream has yielded fewer.  The
    // scanner reports the frame as incomplete rather than failing it.
    let buf = b"Content-Length: 50\r\n\r\nonly a few bytes";
    assert!(matches!(scan_frame(buf), FrameStep::NeedMore));
}

#[test]
fn incomplete_header_awaits_more_input() {
    assert!(matches!(scan_frame(b""), FrameStep::NeedMore));
    assert!(matches!(scan_frame(b"Content-Len"), FrameStep::NeedMore));
    assert!(matches!(scan_frame(b"Content-Length: 2\r\n"), FrameStep::NeedMore));
}

#[test]
fn headers_without_length_are_discarded() {
    let buf = b"X-Stray: yes\r\n\r\nContent-Length: 2\r\n\r\n{}";
    match scan_frame(buf) {
        FrameStep::Restart { consumed } => {
            assert_eq!(consumed, 16);
            match scan_frame(&buf[consumed..]) {
                FrameStep::Frame { start, len, .. } => {
                    assert_eq!(&buf[consumed + start..consumed + start + len], b"{}");
                }
                _ => panic!("expected the next frame"),
            }
        }
        _ => panic!("expected a restart"),
    }
}

#[test]
fn later_length_headers_win() {
    let buf = b"Content-Length: 99\r\nContent-Length: 2\r\n\r\n{}";
    match scan_frame(buf) {
        FrameStep::Frame { len, .. } => assert_eq!(len, 2),
        _ => panic!("expected a frame"),
    }
}

#[test]
fn notifications_emit_no_bytes() {
    let req = parse_request(b"{\"jsonrpc\":\"2.0\",\"method\":\"initialized\"}").unwrap();
    let resp = MCPResponse {
        jsonrpc: b"2.0".to_vec(),
        id: None,
        result: Some(Json::Obj(vec![])),
        error: None,
    };
    assert!(reply_bytes(&req, &resp).is_empty());
}

#[test]
fn identified_requests_are_answered_framed() {
    let req = parse_request(b"{\"jsonrpc\":\"2.0\",\"id\":1,\"method\":\"initialized\"}").unwrap();
    let resp = MCPResponse {
        jsonrpc: b"2.0".to_vec(),
        id: Some(Id::Num(1)),
        result: Some(Json::Obj(vec![])),
        error: None,
    };
    let out = reply_bytes(&req, &resp);
    let expected = b"Content-Length: 36\r\n\r\n{\"jsonrpc\":\"2.0\",\"id\":1,\"result\":{}}";
    assert_eq!(out, expected);
}

#[test]
fn malformed_bodies_get_a_framed_parse_error() {
    let frame = parse_error_frame();
    let text = String::from_utf8(frame).unwrap();
    assert!(text.starts_with("Content-Length: "));
    assert!(text.ends_with(
        "{\"jsonrpc\":\"2.0\",\"error\":{\"code\":-32700,\"message\":\"Parse error\"}}"
    ));
}

#[test]
fn one_exchange_end_to_end() {
    let mut srv = MCPServer::new(SystemMonitor::new(0));
    // A malformed body is answered with the parse-error frame, and the
    // session continues: a well-formed request afterwards still works.
    let bad = stdio_step(&mut srv, b"{nope", 1).expect("answered directly");
    assert!(String::from_utf8(bad).unwrap().contains("-32700"));
    let good = stdio_step(
        &mut srv,
        b"{\"jsonrpc\":\"2.0\",\"id\":1,\"method\":\"startMonitoring\"}",
        2,
    )
    .expect("handled locally");
    let text = String::from_utf8(good).unwrap();
    assert!(text.starts_with("Content-Length: "));
    assert!(text.contains("\"started\":true"));
    // A collector-backed method comes back as pending work.
    assert!(stdio_step(
        &mut srv,
        b"{\"jsonrpc\":\"2.0\",\"id\":2,\"method\":\"getCPUInfo\"}",
        3,
    )
    .is_err());
}
