use mcp_system_monitor::http::{http_post_step, http_reply_bytes, sugar_status_code, HttpPost};
use mcp_system_monitor::jparse::parse_request;
use mcp_system_monitor::json::Json;
use mcp_system_monitor::monitor::SystemMonitor;
use mcp_system_monitor::protocol::{Id, MCPError, MCPResponse};
use mcp_system_monitor::server::MCPServer;

fn ok_response() -> MCPResponse {
    MCPResponse {
        jsonrpc: b"2.0".to_vec(),
        id: Some(Id::Num(1)),
        result: Some(Json::Null),
        error: None,
    }
}

fn err_response() -> MCPResponse {
    MCPResponse {
        jsonrpc: b"2.0".to_vec(),
        id: Some(Id::Num(1)),
        result: None,
        error: Some(MCPError { code: -32001, message: b"gone".to_vec(), data: None }),
    }
}

#[test]
fn sugar_statuses_mirror_the_outcome() {
    assert_eq!(sugar_status_code(&ok_response(), false), 200);
    assert_eq!(sugar_status_code(&ok_response(), true), 200);
    assert_eq!(sugar_status_code(&err_response(), false), 500);
    assert_eq!(sugar_status_code(&err_response(), true), 404);
}

#[test]
fn notifications_get_no_reply_body() {
    let notif = parse_request(b"{\"jsonrpc\":\"2.0\",\"method\":\"initialized\"}").unwrap();
    assert!(http_reply_bytes(&notif, &ok_response()).is_none());
    let with_id = parse_request(b"{\"jsonrpc\":\"2.0\",\"id\":1,\"method\":\"initialized\"}").unwrap();
    let body = http_reply_bytes(&with_id, &ok_response()).unwrap();
    assert_eq!(body, b"{\"jsonrpc\":\"2.0\",\"id\":1,\"result\":null}");
}

#[test]
fn raw_post_reports_bad_json_at_the_transport() {
    let mut srv = MCPServer::new(SystemMonitor::new(0));
    assert!(matches!(http_post_step(&mut srv, b"{oops", 1), HttpPost::BadJson));
    match http_post_step(&mut srv, b"{\"jsonrpc\":\"2.0\",\"id\":3,\"method\":\"tools/list\"}", 2) {
        HttpPost::Reply(Some(body)) => {
            assert!(String::from_utf8(body).unwrap().contains("get_cpu_info"));
        }
        _ => panic!("tools/list is answered directly"),
    }
    match http_post_step(&mut srv, b"{\"jsonrpc\":\"2.0\",\"id\":4,\"method\":\"getMemoryInfo\"}", 3) {
        HttpPost::Call(p) => {
            assert!(matches!(p.call, mcp_system_monitor::server::MonitorCall::MemoryInfo))
        }
        _ => panic!("memory info needs the collector"),
    }
}
