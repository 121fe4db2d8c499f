use mcp_system_monitor::jparse::{parse_json, parse_request};
use mcp_system_monitor::json::{to_bytes, Json};
use mcp_system_monitor::monitor::SystemMonitor;
use mcp_system_monitor::protocol::{obj_get, Id, MCPRequest};
use mcp_system_monitor::server::{
    MCPServer, MonitorCall, MonitorReply, Pending, Routed,
};
use mcp_system_monitor::system::{CPUInfo, NumTok, ProcessInfo};

fn server() -> MCPServer {
    MCPServer::new(SystemMonitor::new(0))
}

fn request(body: &[u8]) -> MCPRequest {
    parse_request(body).expect("request should parse")
}

fn tok(s: &str) -> NumTok {
    NumTok::new(s.as_bytes().to_vec()).expect("valid number token")
}

fn sample_cpu() -> CPUInfo {
    CPUInfo {
        name: b"TestCPU".to_vec(),
        brand: b"TestCPU".to_vec(),
        frequency: 2400,
        cores: 8,
        usage_percent: tok("12.5"),
        temperature: None,
    }
}

#[test]
fn initialize_echoes_requested_version() {
    let req = request(
        b"{\"jsonrpc\":\"2.0\",\"id\":1,\"method\":\"initialize\",\"params\":{\"protocolVersion\":\"2099-01-01\"}}",
    );
    let resp = match server().route(&req) {
        Routed::Reply(r) => r,
        Routed::Call(_) => panic!("initialize needs no collector"),
    };
    let result = resp.result.expect("initialize succeeds");
    let ms = match &result {
        Json::Obj(ms) => ms,
        _ => panic!("expected an object result"),
    };
    match obj_get(ms, "protocolVersion") {
        Some(Json::Str(v)) => assert_eq!(v, b"2099-01-01"),
        _ => panic!("protocolVersion should be echoed"),
    }
    match obj_get(ms, "serverInfo") {
        Some(Json::Obj(info)) => match obj_get(info, "name") {
            Some(Json::Str(n)) => assert_eq!(n, b"mcp-system-monitor"),
            _ => panic!("serverInfo.name missing"),
        },
        _ => panic!("serverInfo missing"),
    }
}

#[test]
fn initialize_defaults_the_version() {
    let req = request(b"{\"jsonrpc\":\"2.0\",\"id\":1,\"method\":\"initialize\"}");
    let resp = match server().route(&req) {
        Routed::Reply(r) => r,
        _ => panic!(),
    };
    let text = String::from_utf8(to_bytes(&resp.result.unwrap())).unwrap();
    assert!(text.contains("\"protocolVersion\":\"2025-11-25\""));
}

#[test]
fn unknown_method_gets_method_not_found() {
    let srv = server();
    let req = request(b"{\"jsonrpc\":\"2.0\",\"id\":\"test-3\",\"method\":\"doesNotExist\"}");
    let resp = match srv.route(&req) {
        Routed::Reply(r) => r,
        _ => panic!("unknown methods are answered directly"),
    };
    assert!(resp.result.is_none());
    let err = resp.error.expect("an error envelope");
    assert_eq!(err.code, -32601);
    assert_eq!(err.message, b"Method not found");
    // The router stays usable afterwards: a well-formed request still works.
    let again = request(b"{\"jsonrpc\":\"2.0\",\"id\":2,\"method\":\"getCPUInfo\"}");
    match srv.route(&again) {
        Routed::Call(p) => assert!(matches!(p.call, MonitorCall::CpuInfo)),
        _ => panic!("getCPUInfo routes to the monitor"),
    }
}

#[test]
fn tools_list_names_every_dispatchable_tool() {
    let req = request(b"{\"jsonrpc\":\"2.0\",\"id\":1,\"method\":\"tools/list\"}");
    let resp = match server().route(&req) {
        Routed::Reply(r) => r,
        _ => panic!(),
    };
    let result = resp.result.unwrap();
    let tools = match &result {
        Json::Obj(ms) => match obj_get(ms, "tools") {
            Some(Json::Arr(es)) => es,
            _ => panic!("tools member missing"),
        },
        _ => panic!("expected object"),
    };
    let names: Vec<Vec<u8>> = tools
        .iter()
        .map(|t| match t {
            Json::Obj(ms) => match obj_get(ms, "name") {
                Some(Json::Str(n)) => n.clone(),
                _ => panic!("tool without a name"),
            },
            _ => panic!("tool entry not an object"),
        })
        .collect();
    let expected: Vec<&[u8]> = vec![
        b"get_system_info",
        b"get_cpu_info",
        b"get_memory_info",
        b"get_disk_info",
        b"get_network_info",
        b"get_processes",
        b"get_system_metrics",
    ];
    assert_eq!(names.len(), expected.len());
    for (got, want) in names.iter().zip(expected.iter()) {
        assert_eq!(got.as_slice(), *want);
    }
}

#[test]
fn tools_call_wraps_cpu_info_in_a_text_block() {
    let srv = server();
    let req = request(
        b"{\"jsonrpc\":\"2.0\",\"id\":9,\"method\":\"tools/call\",\"params\":{\"name\":\"get_cpu_info\"}}",
    );
    let pending = match srv.route(&req) {
        Routed::Call(p) => p,
        _ => panic!("tools/call needs the collector"),
    };
    assert!(pending.wrap);
    assert!(matches!(pending.call, MonitorCall::CpuInfo));
    let resp = srv.complete(pending, MonitorReply::CpuInfo(Ok(sample_cpu())));
    let result = resp.result.expect("a success envelope");
    let text = match &result {
        Json::Obj(ms) => match obj_get(ms, "content") {
            Some(Json::Arr(blocks)) => match &blocks[0] {
                Json::Obj(bms) => {
                    match obj_get(bms, "type") {
                        Some(Json::Str(t)) => assert_eq!(t, b"text"),
                        _ => panic!("missing type"),
                    }
                    match obj_get(bms, "text") {
                        Some(Json::Str(t)) => t.clone(),
                        _ => panic!("missing text"),
                    }
                }
                _ => panic!("block not an object"),
            },
            _ => panic!("missing content"),
        },
        _ => panic!("expected object result"),
    };
    // The text is a pretty-printed JSON document that parses back to an
    // object whose cores member is positive.
    let unescaped: Vec<u8> = {
        // The payload contains only quote and newline escapes here.
        let mut out = Vec::new();
        let mut i = 0;
        while i < text.len() {
            if text[i] == b'\\' {
                out.push(match text[i + 1] {
                    b'n' => b'\n',
                    b'"' => b'"',
                    b'\\' => b'\\',
                    b't' => b'\t',
                    other => other,
                });
                i += 2;
            } else {
                out.push(text[i]);
                i += 1;
            }
        }
        out
    };
    let doc = parse_json(&unescaped).expect("text parses back into JSON");
    match &doc {
        Json::Obj(ms) => match obj_get(ms, "cores") {
            Some(Json::Int(n)) => assert!(*n > 0),
            _ => panic!("cores missing"),
        },
        _ => panic!("text is not an object"),
    }
}

#[test]
fn tools_call_unknown_tool_is_rejected() {
    let req = request(
        b"{\"jsonrpc\":\"2.0\",\"id\":1,\"method\":\"tools/call\",\"params\":{\"name\":\"nope\"}}",
    );
    let resp = match server().route(&req) {
        Routed::Reply(r) => r,
        _ => panic!(),
    };
    let err = resp.error.unwrap();
    assert_eq!(err.code, -32601);
    assert_eq!(err.message, b"Tool not found");
}

#[test]
fn pid_parameter_is_checked() {
    let srv = server();
    let missing = request(b"{\"jsonrpc\":\"2.0\",\"id\":1,\"method\":\"getProcessByPID\"}");
    match srv.route(&missing) {
        Routed::Reply(r) => {
            let err = r.error.unwrap();
            assert_eq!(err.code, -32602);
            assert_eq!(err.message, b"Missing PID parameter");
        }
        _ => panic!(),
    }
    let invalid = request(
        b"{\"jsonrpc\":\"2.0\",\"id\":1,\"method\":\"getProcessByPID\",\"params\":{\"pid\":\"x\"}}",
    );
    match srv.route(&invalid) {
        Routed::Reply(r) => {
            let err = r.error.unwrap();
            assert_eq!(err.code, -32602);
            assert_eq!(err.message, b"Invalid PID parameter");
        }
        _ => panic!(),
    }
    let ok = request(
        b"{\"jsonrpc\":\"2.0\",\"id\":1,\"method\":\"getProcessByPID\",\"params\":{\"pid\":42}}",
    );
    match srv.route(&ok) {
        Routed::Call(p) => assert!(matches!(p.call, MonitorCall::ProcessByPid(42))),
        _ => panic!(),
    }
}

#[test]
fn absent_process_gets_the_dedicated_code() {
    let srv = server();
    let p = Pending {
        id: Some(Id::Num(5)),
        call: MonitorCall::ProcessByPid(999999),
        wrap: false,
    };
    let resp = srv.complete(p, MonitorReply::ProcessByPid(Ok(None)));
    let err = resp.error.expect("an error envelope");
    assert_eq!(err.code, -32001);
    assert_eq!(err.message, b"Process with PID 999999 not found");
    // A collector failure carries the internal-error code instead.
    let p2 = Pending {
        id: Some(Id::Num(5)),
        call: MonitorCall::ProcessByPid(999999),
        wrap: false,
    };
    let resp2 = srv.complete(
        p2,
        MonitorReply::ProcessByPid(Err(b"ps exploded".to_vec())),
    );
    let err2 = resp2.error.unwrap();
    assert_eq!(err2.code, -32603);
    assert_eq!(err2.message, b"Failed to get process: ps exploded");
}

#[test]
fn found_process_is_returned() {
    let srv = server();
    let p = Pending { id: Some(Id::Num(5)), call: MonitorCall::ProcessByPid(1), wrap: false };
    let proc_info = ProcessInfo {
        pid: 1,
        name: b"init".to_vec(),
        command: b"/sbin/init".to_vec(),
        cpu_usage: tok("0.0"),
        memory_usage: 1024,
        memory_usage_percent: tok("0.1"),
        status: b"Ss".to_vec(),
        start_time: b"2024-01-01T00:00:00Z".to_vec(),
        user: b"root".to_vec(),
        priority: 20,
    };
    let resp = srv.complete(p, MonitorReply::ProcessByPid(Ok(Some(proc_info))));
    let text = String::from_utf8(to_bytes(&resp.result.unwrap())).unwrap();
    assert!(text.contains("\"pid\":1"));
    assert!(text.contains("\"user\":\"root\""));
}

#[test]
fn start_and_stop_report_transitions() {
    let mut srv = server();
    let start = request(b"{\"jsonrpc\":\"2.0\",\"id\":1,\"method\":\"startMonitoring\"}");
    let stop = request(b"{\"jsonrpc\":\"2.0\",\"id\":2,\"method\":\"stopMonitoring\"}");
    let first = srv.try_handle(&start, 10).expect("handled locally");
    let text = String::from_utf8(to_bytes(&first.result.unwrap())).unwrap();
    assert!(text.contains("\"started\":true"));
    assert!(text.contains("Monitoring started successfully"));
    let second = srv.try_handle(&start, 11).expect("handled locally");
    let text2 = String::from_utf8(to_bytes(&second.result.unwrap())).unwrap();
    assert!(text2.contains("\"started\":false"));
    assert!(text2.contains("Monitoring already active"));
    let third = srv.try_handle(&stop, 12).expect("handled locally");
    let text3 = String::from_utf8(to_bytes(&third.result.unwrap())).unwrap();
    assert!(text3.contains("\"stopped\":true"));
    let fourth = srv.try_handle(&stop, 13).expect("handled locally");
    let text4 = String::from_utf8(to_bytes(&fourth.result.unwrap())).unwrap();
    assert!(text4.contains("\"stopped\":false"));
    assert!(text4.contains("Monitoring not active"));
}

#[test]
fn responses_echo_the_request_identifier() {
    let srv = server();
    let req = request(b"{\"jsonrpc\":\"2.0\",\"id\":\"abc\",\"method\":\"initialized\"}");
    match srv.route(&req) {
        Routed::Reply(r) => match r.id {
            Some(Id::Str(t)) => assert_eq!(t, b"abc"),
            _ => panic!("identifier should be echoed"),
        },
        _ => panic!(),
    }
}

#[test]
fn mismatched_collector_outcome_is_an_internal_error() {
    let srv = server();
    let p = Pending { id: Some(Id::Num(1)), call: MonitorCall::CpuInfo, wrap: false };
    let resp = srv.complete(p, MonitorReply::MemoryInfo(Err(b"wrong lane".to_vec())));
    let err = resp.error.expect("an error envelope");
    assert_eq!(err.code, -32603);
    assert_eq!(err.message, b"Monitor reply does not match the requested operation");
}
