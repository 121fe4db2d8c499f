//! End-to-end exchanges driven synchronously: routing decides, and a
//! fabricated collector outcome completes the exchange.

use mcp_system_monitor::jparse::parse_request;
use mcp_system_monitor::json::{to_bytes, Json};
use mcp_system_monitor::monitor::SystemMonitor;
use mcp_system_monitor::protocol::{obj_get, Id, MCPRequest};
use mcp_system_monitor::server::{MCPServer, MonitorCall, MonitorReply, Routed};
use mcp_system_monitor::system::{NumTok, SystemInfo};

fn server() -> MCPServer {
    MCPServer::new(SystemMonitor::new(0))
}

fn request(body: &[u8]) -> MCPRequest {
    parse_request(body).expect("request should parse")
}

fn sample_system_info() -> SystemInfo {
    SystemInfo {
        hostname: b"host".to_vec(),
        os_name: b"TestOS".to_vec(),
        os_version: b"1.0".to_vec(),
        kernel_version: b"6.1".to_vec(),
        uptime: 3600,
        boot_time: b"2024-01-01T00:00:00Z".to_vec(),
    }
}

#[test]
fn test_mcp_get_system_info() {
    let srv = server();
    let req = request(b"{\"jsonrpc\":\"2.0\",\"id\":\"test-1\",\"method\":\"getSystemInfo\"}");
    let pending = match srv.route(&req) {
        Routed::Call(p) => p,
        _ => panic!("getSystemInfo needs the collector"),
    };
    assert!(matches!(pending.call, MonitorCall::SystemInfo));
    let resp = srv.complete(pending, MonitorReply::SystemInfo(Ok(sample_system_info())));
    assert_eq!(resp.jsonrpc, b"2.0");
    assert!(matches!(resp.id, Some(Id::Str(ref t)) if t == b"test-1"));
    assert!(resp.error.is_none());
    let result = resp.result.expect("Result should be an object");
    match &result {
        Json::Obj(ms) => {
            assert!(obj_get(ms, "hostname").is_some());
            assert!(obj_get(ms, "os_name").is_some());
            assert!(obj_get(ms, "kernel_version").is_some());
        }
        _ => panic!("Result should be an object"),
    }
}

#[test]
fn test_mcp_get_cpu_info() {
    let srv = server();
    let req = request(b"{\"jsonrpc\":\"2.0\",\"id\":\"test-2\",\"method\":\"getCPUInfo\"}");
    let pending = match srv.route(&req) {
        Routed::Call(p) => p,
        _ => panic!("getCPUInfo needs the collector"),
    };
    let cpu = mcp_system_monitor::system::CPUInfo {
        name: b"TestCPU".to_vec(),
        brand: b"TestCPU".to_vec(),
        frequency: 2400,
        cores: 4,
        usage_percent: NumTok::new(b"33.3".to_vec()).unwrap(),
        temperature: None,
    };
    let resp = srv.complete(pending, MonitorReply::CpuInfo(Ok(cpu)));
    assert_eq!(resp.jsonrpc, b"2.0");
    assert!(matches!(resp.id, Some(Id::Str(ref t)) if t == b"test-2"));
    assert!(resp.error.is_none());
    let result = resp.result.expect("Result should be an object");
    match &result {
        Json::Obj(ms) => {
            assert!(obj_get(ms, "name").is_some());
            assert!(obj_get(ms, "cores").is_some());
            assert!(obj_get(ms, "usage_percent").is_some());
        }
        _ => panic!("Result should be an object"),
    }
}

#[test]
fn test_mcp_invalid_method() {
    let srv = server();
    let req = request(b"{\"jsonrpc\":\"2.0\",\"id\":\"test-3\",\"method\":\"invalidMethod\",\"params\":{}}");
    let resp = match srv.route(&req) {
        Routed::Reply(r) => r,
        _ => panic!("unknown methods are answered directly"),
    };
    assert_eq!(resp.jsonrpc, b"2.0");
    assert!(matches!(resp.id, Some(Id::Str(ref t)) if t == b"test-3"));
    assert!(resp.result.is_none());
    assert!(resp.error.is_some());
    if let Some(error) = resp.error {
        assert_eq!(error.code, -32601);
        assert!(String::from_utf8(error.message).unwrap().contains("Method not found"));
    }
}

#[test]
fn test_system_monitor_start_stop() {
    let mut system_monitor = SystemMonitor::new(0);

    let started = system_monitor.start_monitoring();
    assert!(started);
    assert!(system_monitor.is_monitoring_active());

    let started_again = system_monitor.start_monitoring();
    assert!(!started_again);
    assert!(system_monitor.is_monitoring_active());

    let stopped = system_monitor.stop_monitoring();
    assert!(stopped);
    assert!(!system_monitor.is_monitoring_active());

    let stopped_again = system_monitor.stop_monitoring();
    assert!(!stopped_again);
    assert!(!system_monitor.is_monitoring_active());
}

#[test]
fn test_mcp_error_handling() {
    // Extra parameters are ignored: the request still routes to its
    // collector operation, and a successful outcome is a success.
    let srv = server();
    let req = request(
        b"{\"jsonrpc\":\"2.0\",\"id\":\"test-error\",\"method\":\"getSystemInfo\",\"params\":{\"invalid\":\"params\"}}",
    );
    let pending = match srv.route(&req) {
        Routed::Call(p) => p,
        _ => panic!("extra params must not derail routing"),
    };
    let resp = srv.complete(pending, MonitorReply::SystemInfo(Ok(sample_system_info())));
    assert!(resp.error.is_none());
    assert!(resp.result.is_some());
}

#[test]
fn test_mcp_response_format() {
    let srv = server();
    let req = request(b"{\"jsonrpc\":\"2.0\",\"id\":\"test-format\",\"method\":\"getSystemInfo\"}");
    let pending = match srv.route(&req) {
        Routed::Call(p) => p,
        _ => panic!(),
    };
    let resp = srv.complete(pending, MonitorReply::SystemInfo(Ok(sample_system_info())));
    assert_eq!(resp.jsonrpc, b"2.0");
    assert!(matches!(resp.id, Some(Id::Str(ref t)) if t == b"test-format"));
    assert!(resp.error.is_none() || resp.result.is_none());
    assert!(!(resp.error.is_some() && resp.result.is_some()));
    // And the failing outcome keeps the same discipline.
    let req2 = request(b"{\"jsonrpc\":\"2.0\",\"id\":\"test-format\",\"method\":\"getSystemInfo\"}");
    let pending2 = match srv.route(&req2) {
        Routed::Call(p) => p,
        _ => panic!(),
    };
    let resp2 = srv.complete(pending2, MonitorReply::SystemInfo(Err(b"boom".to_vec())));
    assert!(resp2.result.is_none());
    assert!(resp2.error.is_some());
    let text = String::from_utf8(to_bytes(&mcp_system_monitor::protocol::encode_response(&resp2))).unwrap();
    assert!(text.contains("Failed to get system info: boom"));
}

#[test]
fn test_mcp_server_creation() {
    let srv = server();
    assert!(format!("{:?}", srv).contains("MCPServer"));
}

#[test]
fn test_system_monitor_basic_functionality() {
    let system_monitor = SystemMonitor::new(0);
    assert!(format!("{:?}", system_monitor).contains("SystemMonitor"));
    assert!(!system_monitor.is_monitoring_active());
}
