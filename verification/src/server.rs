//! The method router: maps a parsed request to a reply or to a monitor
//! operation, independent of transport.
//!
//! Routing is split in two verified phases.  [`MCPServer::route`] decides,
//! from the method name and parameters alone, either a finished response
//! (handshake, tool catalogue, malformed parameters, unknown method) or a
//! [`Pending`] monitor operation.  Once the collaborator has performed
//! that operation, [`MCPServer::complete`] turns its outcome into the
//! response.  Both phases echo the request identifier untouched and
//! produce well-formed envelopes, so a failure in one request never
//! reaches the transport as anything but an error response.

use vstd::prelude::*;

use crate::constants::{
    ERROR_INTERNAL_ERROR, ERROR_INVALID_PARAMS, ERROR_METHOD_NOT_FOUND, ERROR_PROCESS_NOT_FOUND,
};
use crate::json::{
    clone_bytes, dec_u, deep_elems, deep_membs, esc, escape, fmt_u64,
    lemma_deep_elems, lemma_deep_membs, lit, sb, serp, to_pretty_bytes, write_bytes, Json, JsonV,
};
use crate::monitor::SystemMonitor;
use crate::protocol::{
    clone_opt_id, lookup, obj_get, opt_id_deep, resp_wf, ErrV, Id, IdV, MCPError, MCPRequest,
    MCPResponse, ReqV, RespV,
};
use crate::system::{
    CPUInfo, DiskInfo, MemoryInfo, NetworkInfo, ProcessInfo, SystemInfo, SystemMetrics,
};

verus! {

/// One operation of the monitor capability.
#[derive(Debug)]
pub enum MonitorCall {
    SystemInfo,
    CpuInfo,
    MemoryInfo,
    DiskInfo,
    NetworkInfo,
    Processes,
    ProcessByPid(u32),
    SystemMetrics,
    StartMonitoring,
    StopMonitoring,
}

/// A routed request that waits on a monitor operation: the echoed
/// identifier, the operation, and whether the result is to be wrapped in
/// a tool-call content envelope.
#[derive(Debug)]
pub struct Pending {
    pub id: Option<Id>,
    pub call: MonitorCall,
    pub wrap: bool,
}

/// The model of a pending operation.
pub struct PendingV {
    pub id: Option<IdV>,
    pub call: MonitorCall,
    pub wrap: bool,
}

impl Pending {
    pub open spec fn deep(self) -> PendingV {
        PendingV { id: opt_id_deep(self.id), call: self.call, wrap: self.wrap }
    }
}

/// What routing decides: a finished response, or a monitor operation
/// still to be performed.
#[derive(Debug)]
pub enum Routed {
    Reply(MCPResponse),
    Call(Pending),
}

/// The model of a routing decision.
pub enum RoutedV {
    Reply(RespV),
    Call(PendingV),
}

impl Routed {
    pub open spec fn deep(self) -> RoutedV {
        match self {
            Routed::Reply(r) => RoutedV::Reply(r.deep()),
            Routed::Call(p) => RoutedV::Call(p.deep()),
        }
    }
}

/// The outcome of a monitor operation, as the collaborator reports it:
/// the snapshot, or a failure description.
#[derive(Debug)]
pub enum MonitorReply {
    SystemInfo(Result<SystemInfo, Vec<u8>>),
    CpuInfo(Result<CPUInfo, Vec<u8>>),
    MemoryInfo(Result<MemoryInfo, Vec<u8>>),
    DiskInfo(Result<Vec<DiskInfo>, Vec<u8>>),
    NetworkInfo(Result<Vec<NetworkInfo>, Vec<u8>>),
    Processes(Result<Vec<ProcessInfo>, Vec<u8>>),
    ProcessByPid(Result<Option<ProcessInfo>, Vec<u8>>),
    SystemMetrics(Result<SystemMetrics, Vec<u8>>),
    Toggled(Result<bool, Vec<u8>>),
}

// ---------------------------------------------------------------------------
// Envelope shapes
// ---------------------------------------------------------------------------

/// A success envelope: `result` set, `error` absent.
pub open spec fn success_v(id: Option<IdV>, result: JsonV) -> RespV {
    RespV { jsonrpc: sb("2.0"), id: id, result: Option::Some(result), error: Option::None }
}

/// A failure envelope: `error` set, `result` absent.
pub open spec fn error_v(id: Option<IdV>, code: int, message: Seq<u8>) -> RespV {
    RespV {
        jsonrpc: sb("2.0"),
        id: id,
        result: Option::None,
        error: Option::Some(ErrV { code: code, message: message, data: Option::None }),
    }
}

// ---------------------------------------------------------------------------
// Handshake
// ---------------------------------------------------------------------------

/// The protocol version a client asked for, or the default where the
/// parameters carry none.  Whatever the client asked for is echoed back
/// unvalidated: version negotiation is deliberately lenient.
pub open spec fn requested_version(params: JsonV) -> Seq<u8> {
    match params {
        JsonV::Obj(ms) => match lookup(ms, sb("protocolVersion")) {
            Option::Some(JsonV::Str(s)) => s,
            _ => sb("2025-11-25"),
        },
        _ => sb("2025-11-25"),
    }
}

/// The `initialize` result: the echoed protocol version, the fixed
/// capability set, and the server identity.
pub open spec fn init_result(params: JsonV) -> JsonV {
    JsonV::Obj(
        seq![
            (sb("protocolVersion"), JsonV::Str(requested_version(params))),
            (
                sb("capabilities"),
                JsonV::Obj(seq![(sb("tools"), JsonV::Obj(Seq::empty()))]),
            ),
            (
                sb("serverInfo"),
                JsonV::Obj(
                    seq![
                        (sb("name"), JsonV::Str(sb("mcp-system-monitor"))),
                        (sb("version"), JsonV::Str(sb("0.1.0"))),
                    ],
                ),
            ),
        ],
    )
}

fn build_init_result(params: &Json) -> (j: Json)
    ensures
        j.deep() == init_result(params.deep()),
{
    let ver: Vec<u8> = match params {
        Json::Obj(ms) => match obj_get(ms, "protocolVersion") {
            Some(Json::Str(t)) => clone_bytes(t),
            _ => lit("2025-11-25"),
        },
        _ => lit("2025-11-25"),
    };
    let tools_empty: Vec<(Vec<u8>, Json)> = Vec::new();
    let mut caps: Vec<(Vec<u8>, Json)> = Vec::new();
    caps.push((lit("tools"), Json::Obj(tools_empty)));
    let mut info: Vec<(Vec<u8>, Json)> = Vec::new();
    info.push((lit("name"), Json::Str(lit("mcp-system-monitor"))));
    info.push((lit("version"), Json::Str(lit("0.1.0"))));
    let mut ms: Vec<(Vec<u8>, Json)> = Vec::new();
    ms.push((lit("protocolVersion"), Json::Str(ver)));
    ms.push((lit("capabilities"), Json::Obj(caps)));
    ms.push((lit("serverInfo"), Json::Obj(info)));
    let j = Json::Obj(ms);
    proof {
        lemma_deep_membs(caps@);
        lemma_deep_membs(info@);
        lemma_deep_membs(ms@);
        assert(deep_membs(caps@) =~= seq![(sb("tools"), JsonV::Obj(Seq::empty()))]);
        assert(deep_membs(info@) =~= seq![
            (sb("name"), JsonV::Str(sb("mcp-system-monitor"))),
            (sb("version"), JsonV::Str(sb("0.1.0"))),
        ]);
        assert(deep_membs(ms@) =~= (match init_result(params.deep()) {
            JsonV::Obj(s) => s,
            _ => Seq::empty(),
        }));
    }
    j
}

// ---------------------------------------------------------------------------
// Tool catalogue
// ---------------------------------------------------------------------------

/// One catalogue entry: name, description, and the trivial input schema.
pub open spec fn tool_json(name: Seq<u8>, desc: Seq<u8>) -> JsonV {
    JsonV::Obj(
        seq![
            (sb("name"), JsonV::Str(name)),
            (sb("description"), JsonV::Str(desc)),
            (
                sb("inputSchema"),
                JsonV::Obj(
                    seq![
                        (sb("type"), JsonV::Str(sb("object"))),
                        (sb("properties"), JsonV::Obj(Seq::empty())),
                    ],
                ),
            ),
        ],
    )
}

/// The names in the static tool catalogue, in catalogue order.
pub open spec fn listed_tool_names() -> Seq<Seq<u8>> {
    seq![
        sb("get_system_info"),
        sb("get_cpu_info"),
        sb("get_memory_info"),
        sb("get_disk_info"),
        sb("get_network_info"),
        sb("get_processes"),
        sb("get_system_metrics"),
    ]
}

pub open spec fn listed_tool_descs() -> Seq<Seq<u8>> {
    seq![
        sb("Get system information (hostname, OS, kernel version, uptime)"),
        sb("Get CPU information and usage statistics"),
        sb("Get memory and swap usage information"),
        sb("Get disk usage information for all mounted filesystems"),
        sb("Get network interface information and statistics"),
        sb("Get list of all running processes"),
        sb("Get comprehensive system metrics"),
    ]
}

/// The static `tools/list` result.
pub open spec fn tools_list_json() -> JsonV {
    JsonV::Obj(
        seq![
            (
                sb("tools"),
                JsonV::Arr(
                    Seq::new(
                        listed_tool_names().len(),
                        |i: int| tool_json(listed_tool_names()[i], listed_tool_descs()[i]),
                    ),
                ),
            ),
        ],
    )
}

fn build_tool(name: &str, desc: &str) -> (j: Json)
    ensures
        j.deep() == tool_json(sb(name), sb(desc)),
{
    let props: Vec<(Vec<u8>, Json)> = Vec::new();
    let mut schema: Vec<(Vec<u8>, Json)> = Vec::new();
    schema.push((lit("type"), Json::Str(lit("object"))));
    schema.push((lit("properties"), Json::Obj(props)));
    let mut ms: Vec<(Vec<u8>, Json)> = Vec::new();
    ms.push((lit("name"), Json::Str(lit(name))));
    ms.push((lit("description"), Json::Str(lit(desc))));
    ms.push((lit("inputSchema"), Json::Obj(schema)));
    let j = Json::Obj(ms);
    proof {
        lemma_deep_membs(schema@);
        lemma_deep_membs(ms@);
        assert(deep_membs(schema@) =~= seq![
            (sb("type"), JsonV::Str(sb("object"))),
            (sb("properties"), JsonV::Obj(Seq::empty())),
        ]);
        assert(deep_membs(ms@) =~= (match tool_json(sb(name), sb(desc)) {
            JsonV::Obj(s) => s,
            _ => Seq::empty(),
        }));
    }
    j
}

fn build_tools_list() -> (j: Json)
    ensures
        j.deep() == tools_list_json(),
{
    let mut tools: Vec<Json> = Vec::new();
    tools.push(build_tool(
        "get_system_info",
        "Get system information (hostname, OS, kernel version, uptime)",
    ));
    tools.push(build_tool("get_cpu_info", "Get CPU information and usage statistics"));
    tools.push(build_tool("get_memory_info", "Get memory and swap usage information"));
    tools.push(build_tool(
        "get_disk_info",
        "Get disk usage information for all mounted filesystems",
    ));
    tools.push(build_tool(
        "get_network_info",
        "Get network interface information and statistics",
    ));
    tools.push(build_tool("get_processes", "Get list of all running processes"));
    tools.push(build_tool("get_system_metrics", "Get comprehensive system metrics"));
    let mut ms: Vec<(Vec<u8>, Json)> = Vec::new();
    ms.push((lit("tools"), Json::Arr(tools)));
    let j = Json::Obj(ms);
    proof {
        lemma_deep_elems(tools@);
        lemma_deep_membs(ms@);
        assert(deep_elems(tools@) =~= Seq::new(
            listed_tool_names().len(),
            |i: int| tool_json(listed_tool_names()[i], listed_tool_descs()[i]),
        ));
        assert(deep_membs(ms@) =~= (match tools_list_json() {
            JsonV::Obj(s) => s,
            _ => Seq::empty(),
        }));
    }
    j
}

/// The closed mapping from tool name to monitor operation.
pub open spec fn tool_dispatch(name: Seq<u8>) -> Option<MonitorCall> {
    if name == sb("get_system_info") {
        Option::Some(MonitorCall::SystemInfo)
    } else if name == sb("get_cpu_info") {
        Option::Some(MonitorCall::CpuInfo)
    } else if name == sb("get_memory_info") {
        Option::Some(MonitorCall::MemoryInfo)
    } else if name == sb("get_disk_info") {
        Option::Some(MonitorCall::DiskInfo)
    } else if name == sb("get_network_info") {
        Option::Some(MonitorCall::NetworkInfo)
    } else if name == sb("get_processes") {
        Option::Some(MonitorCall::Processes)
    } else if name == sb("get_system_metrics") {
        Option::Some(MonitorCall::SystemMetrics)
    } else {
        Option::None
    }
}

/// The tool a `tools/call` request names, if the parameters name one.
pub open spec fn tool_of(params: JsonV) -> Option<MonitorCall> {
    match params {
        JsonV::Obj(ms) => match lookup(ms, sb("name")) {
            Option::Some(JsonV::Str(s)) => tool_dispatch(s),
            _ => Option::None,
        },
        _ => Option::None,
    }
}

fn dispatch_tool_name(name: &Vec<u8>) -> (r: Option<MonitorCall>)
    ensures
        r == tool_dispatch(name@),
{
    if crate::json::eq_lit(name, "get_system_info") {
        Some(MonitorCall::SystemInfo)
    } else if crate::json::eq_lit(name, "get_cpu_info") {
        Some(MonitorCall::CpuInfo)
    } else if crate::json::eq_lit(name, "get_memory_info") {
        Some(MonitorCall::MemoryInfo)
    } else if crate::json::eq_lit(name, "get_disk_info") {
        Some(MonitorCall::DiskInfo)
    } else if crate::json::eq_lit(name, "get_network_info") {
        Some(MonitorCall::NetworkInfo)
    } else if crate::json::eq_lit(name, "get_processes") {
        Some(MonitorCall::Processes)
    } else if crate::json::eq_lit(name, "get_system_metrics") {
        Some(MonitorCall::SystemMetrics)
    } else {
        None
    }
}

fn dispatch_tool(params: &Json) -> (r: Option<MonitorCall>)
    ensures
        r == tool_of(params.deep()),
{
    match params {
        Json::Obj(ms) => match obj_get(ms, "name") {
            Some(Json::Str(t)) => dispatch_tool_name(t),
            _ => None,
        },
        _ => None,
    }
}

// ---------------------------------------------------------------------------
// PID parameter
// ---------------------------------------------------------------------------

/// How the `pid` parameter reads: absent, not an unsigned 32-bit
/// integer, or a PID.
#[derive(Debug)]
pub enum PidArg {
    Missing,
    Invalid,
    Pid(u32),
}

/// The `pid` parameter of a by-PID lookup.  A value that is not an
/// integer in unsigned 32-bit range is invalid; an absent member (or
/// non-object parameters) is missing.
pub open spec fn pid_spec(params: JsonV) -> PidArg {
    match params {
        JsonV::Obj(ms) => match lookup(ms, sb("pid")) {
            Option::None => PidArg::Missing,
            Option::Some(JsonV::Int(n)) => if 0 <= n <= u32::MAX {
                PidArg::Pid(n as u32)
            } else {
                PidArg::Invalid
            },
            Option::Some(_) => PidArg::Invalid,
        },
        _ => PidArg::Missing,
    }
}

fn read_pid(params: &Json) -> (r: PidArg)
    ensures
        r == pid_spec(params.deep()),
{
    match params {
        Json::Obj(ms) => match obj_get(ms, "pid") {
            None => PidArg::Missing,
            Some(Json::Int(n)) => if 0 <= *n && *n <= 0xffff_ffffi64 {
                PidArg::Pid(*n as u32)
            } else {
                PidArg::Invalid
            },
            Some(_) => PidArg::Invalid,
        },
        _ => PidArg::Missing,
    }
}

// ---------------------------------------------------------------------------
// Routing
// ---------------------------------------------------------------------------

/// The monitor operation of a fixed-operation domain method.
pub open spec fn method_call(m: Seq<u8>) -> Option<MonitorCall> {
    if m == sb("getSystemInfo") {
        Option::Some(MonitorCall::SystemInfo)
    } else if m == sb("getCPUInfo") {
        Option::Some(MonitorCall::CpuInfo)
    } else if m == sb("getMemoryInfo") {
        Option::Some(MonitorCall::MemoryInfo)
    } else if m == sb("getDiskInfo") {
        Option::Some(MonitorCall::DiskInfo)
    } else if m == sb("getNetworkInfo") {
        Option::Some(MonitorCall::NetworkInfo)
    } else if m == sb("getProcesses") {
        Option::Some(MonitorCall::Processes)
    } else if m == sb("getSystemMetrics") {
        Option::Some(MonitorCall::SystemMetrics)
    } else if m == sb("startMonitoring") {
        Option::Some(MonitorCall::StartMonitoring)
    } else if m == sb("stopMonitoring") {
        Option::Some(MonitorCall::StopMonitoring)
    } else {
        Option::None
    }
}

/// Every method the router recognizes.
pub open spec fn known_method(m: Seq<u8>) -> bool {
    ||| m == sb("initialize")
    ||| m == sb("initialized")
    ||| m == sb("tools/list")
    ||| m == sb("tools/call")
    ||| m == sb("getProcessByPID")
    ||| method_call(m) is Some
}

/// What the router decides for a request: dispatch is an exact,
/// case-sensitive match on the method string.
pub open spec fn route_spec(q: ReqV) -> RoutedV {
    let m = q.method;
    if m == sb("initialize") {
        RoutedV::Reply(success_v(q.id, init_result(q.params)))
    } else if m == sb("initialized") {
        RoutedV::Reply(success_v(q.id, JsonV::Obj(Seq::empty())))
    } else if m == sb("tools/list") {
        RoutedV::Reply(success_v(q.id, tools_list_json()))
    } else if m == sb("tools/call") {
        match tool_of(q.params) {
            Option::Some(c) => RoutedV::Call(PendingV { id: q.id, call: c, wrap: true }),
            Option::None => RoutedV::Reply(
                error_v(q.id, ERROR_METHOD_NOT_FOUND as int, sb("Tool not found")),
            ),
        }
    } else if m == sb("getProcessByPID") {
        match pid_spec(q.params) {
            PidArg::Pid(pid) => RoutedV::Call(
                PendingV { id: q.id, call: MonitorCall::ProcessByPid(pid), wrap: false },
            ),
            PidArg::Missing => RoutedV::Reply(
                error_v(q.id, ERROR_INVALID_PARAMS as int, sb("Missing PID parameter")),
            ),
            PidArg::Invalid => RoutedV::Reply(
                error_v(q.id, ERROR_INVALID_PARAMS as int, sb("Invalid PID parameter")),
            ),
        }
    } else {
        match method_call(m) {
            Option::Some(c) => RoutedV::Call(PendingV { id: q.id, call: c, wrap: false }),
            Option::None => RoutedV::Reply(
                error_v(q.id, ERROR_METHOD_NOT_FOUND as int, sb("Method not found")),
            ),
        }
    }
}

// ---------------------------------------------------------------------------
// Completion
// ---------------------------------------------------------------------------

/// The tool-call content envelope: the result pretty-printed into one
/// text block.
pub open spec fn wrap_content(v: JsonV) -> JsonV {
    JsonV::Obj(
        seq![
            (
                sb("content"),
                JsonV::Arr(
                    seq![
                        JsonV::Obj(
                            seq![
                                (sb("type"), JsonV::Str(sb("text"))),
                                (sb("text"), JsonV::Str(esc(serp(v, 0)))),
                            ],
                        ),
                    ],
                ),
            ),
        ],
    )
}

pub open spec fn maybe_wrap(wrap: bool, v: JsonV) -> JsonV {
    if wrap {
        wrap_content(v)
    } else {
        v
    }
}

fn wrap_result(result: Json) -> (j: Json)
    ensures
        j.deep() == wrap_content(result.deep()),
{
    let text = to_pretty_bytes(&result);
    let etext = escape(text.as_slice());
    let mut block: Vec<(Vec<u8>, Json)> = Vec::new();
    block.push((lit("type"), Json::Str(lit("text"))));
    block.push((lit("text"), Json::Str(etext)));
    let bj = Json::Obj(block);
    let mut arr: Vec<Json> = Vec::new();
    arr.push(bj);
    let mut outer: Vec<(Vec<u8>, Json)> = Vec::new();
    outer.push((lit("content"), Json::Arr(arr)));
    let j = Json::Obj(outer);
    proof {
        lemma_deep_membs(block@);
        lemma_deep_elems(arr@);
        lemma_deep_membs(outer@);
        assert(deep_membs(block@) =~= seq![
            (sb("type"), JsonV::Str(sb("text"))),
            (sb("text"), JsonV::Str(esc(serp(result.deep(), 0)))),
        ]);
        assert(deep_elems(arr@) =~= seq![
            JsonV::Obj(
                seq![
                    (sb("type"), JsonV::Str(sb("text"))),
                    (sb("text"), JsonV::Str(esc(serp(result.deep(), 0)))),
                ],
            ),
        ]);
        assert(deep_membs(outer@) =~= (match wrap_content(result.deep()) {
            JsonV::Obj(s) => s,
            _ => Seq::empty(),
        }));
    }
    j
}

/// The `startMonitoring` result: whether a transition happened.
pub open spec fn start_result(started: bool) -> JsonV {
    JsonV::Obj(
        seq![
            (sb("started"), JsonV::Bool(started)),
            (
                sb("message"),
                JsonV::Str(
                    if started {
                        sb("Monitoring started successfully")
                    } else {
                        sb("Monitoring already active")
                    },
                ),
            ),
        ],
    )
}

/// The `stopMonitoring` result: whether a transition happened.
pub open spec fn stop_result(stopped: bool) -> JsonV {
    JsonV::Obj(
        seq![
            (sb("stopped"), JsonV::Bool(stopped)),
            (
                sb("message"),
                JsonV::Str(
                    if stopped {
                        sb("Monitoring stopped successfully")
                    } else {
                        sb("Monitoring not active")
                    },
                ),
            ),
        ],
    )
}

fn build_start_result(started: bool) -> (j: Json)
    ensures
        j.deep() == start_result(started),
{
    let mut ms: Vec<(Vec<u8>, Json)> = Vec::new();
    ms.push((lit("started"), Json::Bool(started)));
    ms.push(
        (
            lit("message"),
            Json::Str(
                if started {
                    lit("Monitoring started successfully")
                } else {
                    lit("Monitoring already active")
                },
            ),
        ),
    );
    let j = Json::Obj(ms);
    proof {
        lemma_deep_membs(ms@);
        assert(deep_membs(ms@) =~= (match start_result(started) {
            JsonV::Obj(s) => s,
            _ => Seq::empty(),
        }));
    }
    j
}

fn build_stop_result(stopped: bool) -> (j: Json)
    ensures
        j.deep() == stop_result(stopped),
{
    let mut ms: Vec<(Vec<u8>, Json)> = Vec::new();
    ms.push((lit("stopped"), Json::Bool(stopped)));
    ms.push(
        (
            lit("message"),
            Json::Str(
                if stopped {
                    lit("Monitoring stopped successfully")
                } else {
                    lit("Monitoring not active")
                },
            ),
        ),
    );
    let j = Json::Obj(ms);
    proof {
        lemma_deep_membs(ms@);
        assert(deep_membs(ms@) =~= (match stop_result(stopped) {
            JsonV::Obj(s) => s,
            _ => Seq::empty(),
        }));
    }
    j
}

/// The collector-failure message for one operation: a fixed prefix and
/// the collaborator's own description.
pub open spec fn fail_message(call: MonitorCall, msg: Seq<u8>) -> Seq<u8> {
    match call {
        MonitorCall::SystemInfo => sb("Failed to get system info: ") + msg,
        MonitorCall::CpuInfo => sb("Failed to get CPU info: ") + msg,
        MonitorCall::MemoryInfo => sb("Failed to get memory info: ") + msg,
        MonitorCall::DiskInfo => sb("Failed to get disk info: ") + msg,
        MonitorCall::NetworkInfo => sb("Failed to get network info: ") + msg,
        MonitorCall::Processes => sb("Failed to get processes: ") + msg,
        MonitorCall::ProcessByPid(_) => sb("Failed to get process: ") + msg,
        MonitorCall::SystemMetrics => sb("Failed to get system metrics: ") + msg,
        MonitorCall::StartMonitoring => sb("Failed to start monitoring: ") + msg,
        MonitorCall::StopMonitoring => sb("Failed to stop monitoring: ") + msg,
    }
}

fn build_fail_message(call: &MonitorCall, msg: &Vec<u8>) -> (r: Vec<u8>)
    ensures
        r@ == fail_message(*call, msg@),
{
    let mut out: Vec<u8> = match call {
        MonitorCall::SystemInfo => lit("Failed to get system info: "),
        MonitorCall::CpuInfo => lit("Failed to get CPU info: "),
        MonitorCall::MemoryInfo => lit("Failed to get memory info: "),
        MonitorCall::DiskInfo => lit("Failed to get disk info: "),
        MonitorCall::NetworkInfo => lit("Failed to get network info: "),
        MonitorCall::Processes => lit("Failed to get processes: "),
        MonitorCall::ProcessByPid(_) => lit("Failed to get process: "),
        MonitorCall::SystemMetrics => lit("Failed to get system metrics: "),
        MonitorCall::StartMonitoring => lit("Failed to start monitoring: "),
        MonitorCall::StopMonitoring => lit("Failed to stop monitoring: "),
    };
    write_bytes(msg.as_slice(), &mut out);
    out
}

/// The message of the process-not-found error for one PID.
pub open spec fn not_found_message(pid: u32) -> Seq<u8> {
    sb("Process with PID ") + dec_u(pid as nat) + sb(" not found")
}

/// The response owed once the monitor operation of `p` has come back with
/// `reply`.  A mismatched reply kind is answered as an internal error; a
/// by-PID lookup that found nothing gets the dedicated process-not-found
/// code, distinct from collector failure.
pub open spec fn complete_spec(p: PendingV, reply: MonitorReply) -> RespV {
    match (p.call, reply) {
        (MonitorCall::SystemInfo, MonitorReply::SystemInfo(res)) => match res {
            Result::Ok(info) => success_v(p.id, maybe_wrap(p.wrap, info.json())),
            Result::Err(m) => error_v(
                p.id,
                ERROR_INTERNAL_ERROR as int,
                fail_message(p.call, m@),
            ),
        },
        (MonitorCall::CpuInfo, MonitorReply::CpuInfo(res)) => match res {
            Result::Ok(info) => success_v(p.id, maybe_wrap(p.wrap, info.json())),
            Result::Err(m) => error_v(
                p.id,
                ERROR_INTERNAL_ERROR as int,
                fail_message(p.call, m@),
            ),
        },
        (MonitorCall::MemoryInfo, MonitorReply::MemoryInfo(res)) => match res {
            Result::Ok(info) => success_v(p.id, maybe_wrap(p.wrap, info.json())),
            Result::Err(m) => error_v(
                p.id,
                ERROR_INTERNAL_ERROR as int,
                fail_message(p.call, m@),
            ),
        },
        (MonitorCall::DiskInfo, MonitorReply::DiskInfo(res)) => match res {
            Result::Ok(disks) => success_v(
                p.id,
                maybe_wrap(p.wrap, JsonV::Arr(crate::system::disks_json(disks@))),
            ),
            Result::Err(m) => error_v(
                p.id,
                ERROR_INTERNAL_ERROR as int,
                fail_message(p.call, m@),
            ),
        },
        (MonitorCall::NetworkInfo, MonitorReply::NetworkInfo(res)) => match res {
            Result::Ok(nets) => success_v(
                p.id,
                maybe_wrap(p.wrap, JsonV::Arr(crate::system::networks_json(nets@))),
            ),
            Result::Err(m) => error_v(
                p.id,
                ERROR_INTERNAL_ERROR as int,
                fail_message(p.call, m@),
            ),
        },
        (MonitorCall::Processes, MonitorReply::Processes(res)) => match res {
            Result::Ok(procs) => success_v(
                p.id,
                maybe_wrap(p.wrap, JsonV::Arr(crate::system::processes_json(procs@))),
            ),
            Result::Err(m) => error_v(
                p.id,
                ERROR_INTERNAL_ERROR as int,
                fail_message(p.call, m@),
            ),
        },
        (MonitorCall::ProcessByPid(pid), MonitorReply::ProcessByPid(res)) => match res {
            Result::Ok(Option::Some(info)) => success_v(p.id, maybe_wrap(p.wrap, info.json())),
            Result::Ok(Option::None) => error_v(
                p.id,
                ERROR_PROCESS_NOT_FOUND as int,
                not_found_message(pid),
            ),
            Result::Err(m) => error_v(
                p.id,
                ERROR_INTERNAL_ERROR as int,
                fail_message(p.call, m@),
            ),
        },
        (MonitorCall::SystemMetrics, MonitorReply::SystemMetrics(res)) => match res {
            Result::Ok(metrics) => success_v(p.id, maybe_wrap(p.wrap, metrics.json())),
            Result::Err(m) => error_v(
                p.id,
                ERROR_INTERNAL_ERROR as int,
                fail_message(p.call, m@),
            ),
        },
        (MonitorCall::StartMonitoring, MonitorReply::Toggled(res)) => match res {
            Result::Ok(b) => success_v(p.id, maybe_wrap(p.wrap, start_result(b))),
            Result::Err(m) => error_v(
                p.id,
                ERROR_INTERNAL_ERROR as int,
                fail_message(p.call, m@),
            ),
        },
        (MonitorCall::StopMonitoring, MonitorReply::Toggled(res)) => match res {
            Result::Ok(b) => success_v(p.id, maybe_wrap(p.wrap, stop_result(b))),
            Result::Err(m) => error_v(
                p.id,
                ERROR_INTERNAL_ERROR as int,
                fail_message(p.call, m@),
            ),
        },
        _ => error_v(
            p.id,
            ERROR_INTERNAL_ERROR as int,
            sb("Monitor reply does not match the requested operation"),
        ),
    }
}

// ---------------------------------------------------------------------------
// The server
// ---------------------------------------------------------------------------

/// The router with its monitor state.
#[derive(Debug)]
pub struct MCPServer {
    /// The monitor latch and bookkeeping; the collaborator's collectors
    /// stand outside.
    pub monitor: SystemMonitor,
}

impl MCPServer {
    /// A server around the given monitor state.
    pub fn new(monitor: SystemMonitor) -> (r: MCPServer)
        ensures
            r.monitor == monitor,
    {
        MCPServer { monitor }
    }

    /// A success envelope for `id`.
    pub fn create_success_response(&self, id: Option<Id>, result: Json) -> (r: MCPResponse)
        ensures
            r.deep() == success_v(opt_id_deep(id), result.deep()),
            resp_wf(r.deep()),
    {
        MCPResponse { jsonrpc: lit("2.0"), id: id, result: Some(result), error: None }
    }

    /// A failure envelope for `id`.
    pub fn create_error_response(&self, id: Option<Id>, code: i32, message: Vec<u8>) -> (r:
        MCPResponse)
        ensures
            r.deep() == error_v(opt_id_deep(id), code as int, message@),
            resp_wf(r.deep()),
    {
        MCPResponse {
            jsonrpc: lit("2.0"),
            id: id,
            result: None,
            error: Some(MCPError { code: code, message: message, data: None }),
        }
    }

    /// Phase one: decides what a request gets, from its method name and
    /// parameters alone.
    pub fn route(&self, req: &MCPRequest) -> (r: Routed)
        ensures
            r.deep() == route_spec(req.deep()),
    {
        let id = clone_opt_id(&req.id);
        if crate::json::eq_lit(&req.method, "initialize") {
            let result = build_init_result(&req.params);
            Routed::Reply(self.create_success_response(id, result))
        } else if crate::json::eq_lit(&req.method, "initialized") {
            let empty: Vec<(Vec<u8>, Json)> = Vec::new();
            Routed::Reply(self.create_success_response(id, Json::Obj(empty)))
        } else if crate::json::eq_lit(&req.method, "tools/list") {
            let result = build_tools_list();
            Routed::Reply(self.create_success_response(id, result))
        } else if crate::json::eq_lit(&req.method, "tools/call") {
            match dispatch_tool(&req.params) {
                Some(c) => Routed::Call(Pending { id: id, call: c, wrap: true }),
                None => Routed::Reply(
                    self.create_error_response(id, ERROR_METHOD_NOT_FOUND, lit("Tool not found")),
                ),
            }
        } else if crate::json::eq_lit(&req.method, "getProcessByPID") {
            match read_pid(&req.params) {
                PidArg::Pid(pid) => Routed::Call(
                    Pending { id: id, call: MonitorCall::ProcessByPid(pid), wrap: false },
                ),
                PidArg::Missing => Routed::Reply(
                    self.create_error_response(
                        id,
                        ERROR_INVALID_PARAMS,
                        lit("Missing PID parameter"),
                    ),
                ),
                PidArg::Invalid => Routed::Reply(
                    self.create_error_response(
                        id,
                        ERROR_INVALID_PARAMS,
                        lit("Invalid PID parameter"),
                    ),
                ),
            }
        } else {
            let c = if crate::json::eq_lit(&req.method, "getSystemInfo") {
                Some(MonitorCall::SystemInfo)
            } else if crate::json::eq_lit(&req.method, "getCPUInfo") {
                Some(MonitorCall::CpuInfo)
            } else if crate::json::eq_lit(&req.method, "getMemoryInfo") {
                Some(MonitorCall::MemoryInfo)
            } else if crate::json::eq_lit(&req.method, "getDiskInfo") {
                Some(MonitorCall::DiskInfo)
            } else if crate::json::eq_lit(&req.method, "getNetworkInfo") {
                Some(MonitorCall::NetworkInfo)
            } else if crate::json::eq_lit(&req.method, "getProcesses") {
                Some(MonitorCall::Processes)
            } else if crate::json::eq_lit(&req.method, "getSystemMetrics") {
                Some(MonitorCall::SystemMetrics)
            } else if crate::json::eq_lit(&req.method, "startMonitoring") {
                Some(MonitorCall::StartMonitoring)
            } else if crate::json::eq_lit(&req.method, "stopMonitoring") {
                Some(MonitorCall::StopMonitoring)
            } else {
                None
            };
            match c {
                Some(call) => Routed::Call(Pending { id: id, call: call, wrap: false }),
                None => Routed::Reply(
                    self.create_error_response(
                        id,
                        ERROR_METHOD_NOT_FOUND,
                        lit("Method not found"),
                    ),
                ),
            }
        }
    }

    /// Phase two: the response owed for the collaborator's outcome.
    pub fn complete(&self, p: Pending, reply: MonitorReply) -> (r: MCPResponse)
        ensures
            r.deep() == complete_spec(p.deep(), reply),
            resp_wf(r.deep()),
    {
        match (&p.call, &reply) {
            (MonitorCall::SystemInfo, MonitorReply::SystemInfo(res)) => match res {
                Ok(info) => {
                    let result = info.to_json();
                    let result = if p.wrap {
                        wrap_result(result)
                    } else {
                        result
                    };
                    self.create_success_response(p.id, result)
                },
                Err(m) => {
                    let msg = build_fail_message(&p.call, m);
                    self.create_error_response(p.id, ERROR_INTERNAL_ERROR, msg)
                },
            },
            (MonitorCall::CpuInfo, MonitorReply::CpuInfo(res)) => match res {
                Ok(info) => {
                    let result = info.to_json();
                    let result = if p.wrap {
                        wrap_result(result)
                    } else {
                        result
                    };
                    self.create_success_response(p.id, result)
                },
                Err(m) => {
                    let msg = build_fail_message(&p.call, m);
                    self.create_error_response(p.id, ERROR_INTERNAL_ERROR, msg)
                },
            },
            (MonitorCall::MemoryInfo, MonitorReply::MemoryInfo(res)) => match res {
                Ok(info) => {
                    let result = info.to_json();
                    let result = if p.wrap {
                        wrap_result(result)
                    } else {
                        result
                    };
                    self.create_success_response(p.id, result)
                },
                Err(m) => {
                    let msg = build_fail_message(&p.call, m);
                    self.create_error_response(p.id, ERROR_INTERNAL_ERROR, msg)
                },
            },
            (MonitorCall::DiskInfo, MonitorReply::DiskInfo(res)) => match res {
                Ok(disks) => {
                    let result = crate::system::disks_to_json(disks);
                    let result = if p.wrap {
                        wrap_result(result)
                    } else {
                        result
                    };
                    self.create_success_response(p.id, result)
                },
                Err(m) => {
                    let msg = build_fail_message(&p.call, m);
                    self.create_error_response(p.id, ERROR_INTERNAL_ERROR, msg)
                },
            },
            (MonitorCall::NetworkInfo, MonitorReply::NetworkInfo(res)) => match res {
                Ok(nets) => {
                    let result = crate::system::networks_to_json(nets);
                    let result = if p.wrap {
                        wrap_result(result)
                    } else {
                        result
                    };
                    self.create_success_response(p.id, result)
                },
                Err(m) => {
                    let msg = build_fail_message(&p.call, m);
                    self.create_error_response(p.id, ERROR_INTERNAL_ERROR, msg)
                },
            },
            (MonitorCall::Processes, MonitorReply::Processes(res)) => match res {
                Ok(procs) => {
                    let result = crate::system::processes_to_json(procs);
                    let result = if p.wrap {
                        wrap_result(result)
                    } else {
                        result
                    };
                    self.create_success_response(p.id, result)
                },
                Err(m) => {
                    let msg = build_fail_message(&p.call, m);
                    self.create_error_response(p.id, ERROR_INTERNAL_ERROR, msg)
                },
            },
            (MonitorCall::ProcessByPid(pid), MonitorReply::ProcessByPid(res)) => match res {
                Ok(Some(info)) => {
                    let result = info.to_json();
                    let result = if p.wrap {
                        wrap_result(result)
                    } else {
                        result
                    };
                    self.create_success_response(p.id, result)
                },
                Ok(None) => {
                    let mut msg = lit("Process with PID ");
                    fmt_u64(*pid as u64, &mut msg);
                    write_bytes(" not found".as_bytes(), &mut msg);
                    self.create_error_response(p.id, ERROR_PROCESS_NOT_FOUND, msg)
                },
                Err(m) => {
                    let msg = build_fail_message(&p.call, m);
                    self.create_error_response(p.id, ERROR_INTERNAL_ERROR, msg)
                },
            },
            (MonitorCall::SystemMetrics, MonitorReply::SystemMetrics(res)) => match res {
                Ok(metrics) => {
                    let result = metrics.to_json();
                    let result = if p.wrap {
                        wrap_result(result)
                    } else {
                        result
                    };
                    self.create_success_response(p.id, result)
                },
                Err(m) => {
                    let msg = build_fail_message(&p.call, m);
                    self.create_error_response(p.id, ERROR_INTERNAL_ERROR, msg)
                },
            },
            (MonitorCall::StartMonitoring, MonitorReply::Toggled(res)) => match res {
                Ok(b) => {
                    let result = build_start_result(*b);
                    let result = if p.wrap {
                        wrap_result(result)
                    } else {
                        result
                    };
                    self.create_success_response(p.id, result)
                },
                Err(m) => {
                    let msg = build_fail_message(&p.call, m);
                    self.create_error_response(p.id, ERROR_INTERNAL_ERROR, msg)
                },
            },
            (MonitorCall::StopMonitoring, MonitorReply::Toggled(res)) => match res {
                Ok(b) => {
                    let result = build_stop_result(*b);
                    let result = if p.wrap {
                        wrap_result(result)
                    } else {
                        result
                    };
                    self.create_success_response(p.id, result)
                },
                Err(m) => {
                    let msg = build_fail_message(&p.call, m);
                    self.create_error_response(p.id, ERROR_INTERNAL_ERROR, msg)
                },
            },
            _ => {
                self.create_error_response(
                    p.id,
                    ERROR_INTERNAL_ERROR,
                    lit("Monitor reply does not match the requested operation"),
                )
            },
        }
    }

    /// Handles a request end to end where no collector is needed; a
    /// request that needs one comes back as the pending operation for the
    /// caller to perform.  Every serviced operation refreshes the
    /// monitor's timestamp to `now`, as the start/stop operations do.
    pub fn try_handle(&mut self, req: &MCPRequest, now: i64) -> (r: Result<MCPResponse, Pending>)
        ensures
            match route_spec(req.deep()) {
                RoutedV::Reply(resp) => {
                    &&& r is Ok
                    &&& r matches Result::Ok(got) && got.deep() == resp
                    &&& *final(self) == *old(self)
                },
                RoutedV::Call(p) => {
                    if p.call is StartMonitoring || p.call is StopMonitoring {
                        &&& r matches Result::Ok(got) && got.deep() == complete_spec(
                            p,
                            MonitorReply::Toggled(
                                Result::Ok(
                                    if p.call is StartMonitoring {
                                        !old(self).monitor.active()
                                    } else {
                                        old(self).monitor.active()
                                    },
                                ),
                            ),
                        )
                        &&& final(self).monitor.active() == (p.call is StartMonitoring)
                        &&& final(self).monitor.updated_at() == now as int
                    } else {
                        &&& r matches Result::Err(got) && got.deep() == p
                        &&& *final(self) == *old(self)
                    }
                },
            },
            r matches Result::Ok(resp) ==> resp_wf(resp.deep()),
    {
        match self.route(req) {
            Routed::Reply(resp) => Ok(resp),
            Routed::Call(p) => {
                match p.call {
                    MonitorCall::StartMonitoring => {
                        self.monitor.refresh(now);
                        let b = self.monitor.start_monitoring();
                        Ok(self.complete(p, MonitorReply::Toggled(Ok(b))))
                    },
                    MonitorCall::StopMonitoring => {
                        self.monitor.refresh(now);
                        let b = self.monitor.stop_monitoring();
                        Ok(self.complete(p, MonitorReply::Toggled(Ok(b))))
                    },
                    _ => Err(p),
                }
            },
        }
    }
}


// ---------------------------------------------------------------------------
// Protocol laws
// ---------------------------------------------------------------------------

/// Whatever the router decides, the request's identifier is carried
/// through untouched: a finished reply echoes it, and a pending
/// operation holds it for the reply to come.
pub proof fn lemma_route_echoes_id(q: ReqV)
    ensures
        match route_spec(q) {
            RoutedV::Reply(r) => r.id == q.id,
            RoutedV::Call(p) => p.id == q.id,
        },
{
}

/// Completion echoes the pending operation's identifier, whatever the
/// collaborator came back with.
pub proof fn lemma_complete_echoes_id(p: PendingV, reply: MonitorReply)
    ensures
        complete_spec(p, reply).id == p.id,
{
}

/// Every response the router finishes is a well-formed envelope: exactly
/// one of `result` and `error`.
pub proof fn lemma_route_envelope(q: ReqV)
    ensures
        match route_spec(q) {
            RoutedV::Reply(r) => resp_wf(r),
            RoutedV::Call(_) => true,
        },
{
}

/// Every response completion builds is a well-formed envelope, whatever
/// the collaborator came back with.
pub proof fn lemma_complete_envelope(p: PendingV, reply: MonitorReply)
    ensures
        resp_wf(complete_spec(p, reply)),
{
}

/// A method outside the recognized set is answered with the
/// method-not-found error, and with nothing else: the router's state of
/// mind does not depend on earlier requests, so the transport stays
/// usable.
pub proof fn lemma_unknown_method(q: ReqV)
    requires
        !known_method(q.method),
    ensures
        route_spec(q) == RoutedV::Reply(
            error_v(q.id, ERROR_METHOD_NOT_FOUND as int, sb("Method not found")),
        ),
{
}

/// Version negotiation is lenient: whatever protocol version the client
/// asked for comes back verbatim in the `initialize` result.
pub proof fn lemma_initialize_echoes_version(q: ReqV, ms: Seq<(Seq<u8>, JsonV)>, pv: Seq<u8>)
    requires
        q.method == sb("initialize"),
        q.params == JsonV::Obj(ms),
        lookup(ms, sb("protocolVersion")) == Option::Some(JsonV::Str(pv)),
    ensures
        route_spec(q) == RoutedV::Reply(success_v(q.id, init_result(q.params))),
        requested_version(q.params) == pv,
        init_result(q.params) matches JsonV::Obj(r) && r[0] == (
            sb("protocolVersion"),
            JsonV::Str(pv),
        ),
{
}

/// A by-PID lookup that found no process is answered with the dedicated
/// process-not-found code, which no collector failure ever carries.
pub proof fn lemma_not_found_is_not_internal(p: PendingV, pid: u32, m: Vec<u8>)
    requires
        p.call == MonitorCall::ProcessByPid(pid),
    ensures
        complete_spec(p, MonitorReply::ProcessByPid(Result::Ok(Option::None)))
            == error_v(p.id, ERROR_PROCESS_NOT_FOUND as int, not_found_message(pid)),
        complete_spec(p, MonitorReply::ProcessByPid(Result::Err(m)))
            == error_v(p.id, ERROR_INTERNAL_ERROR as int, fail_message(p.call, m@)),
        ERROR_PROCESS_NOT_FOUND != ERROR_INTERNAL_ERROR,
{
}

/// The tool catalogue and the `tools/call` dispatch name exactly the same
/// operations: every listed tool dispatches, and every name that
/// dispatches is listed.
pub proof fn lemma_tool_catalogue_complete(name: Seq<u8>)
    ensures
        tool_dispatch(name) is Some <==> listed_tool_names().contains(name),
{
    if tool_dispatch(name) is Some {
        if name == sb("get_system_info") {
            assert(listed_tool_names()[0] == name);
        } else if name == sb("get_cpu_info") {
            assert(listed_tool_names()[1] == name);
        } else if name == sb("get_memory_info") {
            assert(listed_tool_names()[2] == name);
        } else if name == sb("get_disk_info") {
            assert(listed_tool_names()[3] == name);
        } else if name == sb("get_network_info") {
            assert(listed_tool_names()[4] == name);
        } else if name == sb("get_processes") {
            assert(listed_tool_names()[5] == name);
        } else {
            assert(listed_tool_names()[6] == name);
        }
    }
    if listed_tool_names().contains(name) {
        let i = choose|i: int| 0 <= i < listed_tool_names().len() && listed_tool_names()[i]
            == name;
        assert(tool_dispatch(name) is Some);
    }
}

} // verus!
