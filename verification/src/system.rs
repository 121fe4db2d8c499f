//! Snapshot value types handed in by the host-data collector.
//!
//! The collector (an external collaborator that shells out and reads
//! procfs) produces these as plain values: text as raw bytes, counts as
//! integers, fractional readings as pre-rendered decimal tokens
//! ([`NumTok`]).  The core only turns them into JSON documents; free text
//! is escaped on the way out, so any byte sequence is acceptable.

use vstd::prelude::*;

use crate::json::{
    dec_u, deep_elems, deep_membs, esc, escape, exp_end, fmt_u64, frac_end, int_end, is_numtok,
    lemma_deep_elems, lemma_deep_membs, lit, numtok_ok, Json, JsonV,
};

verus! {

/// A fractional reading carried as a validated JSON number token, e.g.
/// `42.7`.  This is how percentage and temperature values cross the
/// boundary from the collector without floating point entering the core.
#[derive(Debug)]
pub struct NumTok {
    tok: Vec<u8>,
}

impl NumTok {
    /// The token bytes.
    pub closed spec fn bytes(self) -> Seq<u8> {
        self.tok@
    }

    pub open spec fn wf(self) -> bool {
        numtok_ok(self.bytes())
    }

    /// Accepts exactly the well-formed JSON number tokens.
    pub fn new(t: Vec<u8>) -> (r: Option<NumTok>)
        ensures
            match r {
                Option::Some(nt) => numtok_ok(t@) && nt.bytes() == t@ && nt.wf(),
                Option::None => !numtok_ok(t@),
            },
    {
        if is_numtok(t.as_slice()) {
            Some(NumTok { tok: t })
        } else {
            None
        }
    }

    /// The token `0`.
    pub fn zero() -> (r: NumTok)
        ensures
            r.bytes() == dec_u(0),
            r.wf(),
    {
        let mut t: Vec<u8> = Vec::new();
        t.push(48u8);
        assert(t@ =~= dec_u(0));
        assert(numtok_ok(t@)) by {
            assert(int_end(t@, 0) == Option::<int>::Some(1));
            assert(frac_end(t@, 1) == Option::<int>::Some(1));
            assert(exp_end(t@, 1) == Option::<int>::Some(1));
        }
        NumTok { tok: t }
    }

    /// The token as a JSON number.
    pub fn to_json(&self) -> (j: Json)
        ensures
            j.deep() == JsonV::Num(self.bytes()),
    {
        Json::Num(crate::json::clone_bytes(&self.tok))
    }
}

/// A `u64` as a JSON value: an `Int` where it fits the signed range, the
/// decimal token otherwise.
pub open spec fn ju64(n: u64) -> JsonV {
    if n <= i64::MAX {
        JsonV::Int(n as int)
    } else {
        JsonV::Num(dec_u(n as nat))
    }
}

pub fn json_u64(n: u64) -> (j: Json)
    ensures
        j.deep() == ju64(n),
{
    if n <= 0x7fff_ffff_ffff_ffff {
        Json::Int(n as i64)
    } else {
        let mut t: Vec<u8> = Vec::new();
        fmt_u64(n, &mut t);
        Json::Num(t)
    }
}

/// System identity and uptime.
#[derive(Debug)]
pub struct SystemInfo {
    /// System hostname
    pub hostname: Vec<u8>,
    /// Operating system name
    pub os_name: Vec<u8>,
    /// Operating system version
    pub os_version: Vec<u8>,
    /// Kernel version
    pub kernel_version: Vec<u8>,
    /// System uptime in seconds
    pub uptime: u64,
    /// System boot time, pre-rendered as timestamp text
    pub boot_time: Vec<u8>,
}

impl SystemInfo {
    pub open spec fn json(self) -> JsonV {
        JsonV::Obj(
            seq![
                (crate::json::sb("hostname"), JsonV::Str(esc(self.hostname@))),
                (crate::json::sb("os_name"), JsonV::Str(esc(self.os_name@))),
                (crate::json::sb("os_version"), JsonV::Str(esc(self.os_version@))),
                (crate::json::sb("kernel_version"), JsonV::Str(esc(self.kernel_version@))),
                (crate::json::sb("uptime"), ju64(self.uptime)),
                (crate::json::sb("boot_time"), JsonV::Str(esc(self.boot_time@))),
            ],
        )
    }

    pub fn to_json(&self) -> (j: Json)
        ensures
            j.deep() == self.json(),
    {
        let mut ms: Vec<(Vec<u8>, Json)> = Vec::new();
        ms.push((lit("hostname"), Json::Str(escape(self.hostname.as_slice()))));
        ms.push((lit("os_name"), Json::Str(escape(self.os_name.as_slice()))));
        ms.push((lit("os_version"), Json::Str(escape(self.os_version.as_slice()))));
        ms.push((lit("kernel_version"), Json::Str(escape(self.kernel_version.as_slice()))));
        ms.push((lit("uptime"), json_u64(self.uptime)));
        ms.push((lit("boot_time"), Json::Str(escape(self.boot_time.as_slice()))));
        let j = Json::Obj(ms);
        proof {
            lemma_deep_membs(ms@);
            assert(deep_membs(ms@) =~= (match self.json() {
                JsonV::Obj(s) => s,
                _ => Seq::empty(),
            }));
        }
        j
    }
}

/// Processor identity and load.
#[derive(Debug)]
pub struct CPUInfo {
    /// CPU model name
    pub name: Vec<u8>,
    /// CPU brand information
    pub brand: Vec<u8>,
    /// CPU frequency in MHz
    pub frequency: u64,
    /// Number of CPU cores
    pub cores: u32,
    /// CPU usage percentage token
    pub usage_percent: NumTok,
    /// CPU temperature in Celsius, if available
    pub temperature: Option<NumTok>,
}

impl CPUInfo {
    pub open spec fn json(self) -> JsonV {
        JsonV::Obj(
            seq![
                (crate::json::sb("name"), JsonV::Str(esc(self.name@))),
                (crate::json::sb("brand"), JsonV::Str(esc(self.brand@))),
                (crate::json::sb("frequency"), ju64(self.frequency)),
                (crate::json::sb("cores"), JsonV::Int(self.cores as int)),
                (crate::json::sb("usage_percent"), JsonV::Num(self.usage_percent.bytes())),
                (
                    crate::json::sb("temperature"),
                    match self.temperature {
                        Option::Some(t) => JsonV::Num(t.bytes()),
                        Option::None => JsonV::Null,
                    },
                ),
            ],
        )
    }

    pub fn to_json(&self) -> (j: Json)
        ensures
            j.deep() == self.json(),
    {
        let mut ms: Vec<(Vec<u8>, Json)> = Vec::new();
        ms.push((lit("name"), Json::Str(escape(self.name.as_slice()))));
        ms.push((lit("brand"), Json::Str(escape(self.brand.as_slice()))));
        ms.push((lit("frequency"), json_u64(self.frequency)));
        ms.push((lit("cores"), Json::Int(self.cores as i64)));
        ms.push((lit("usage_percent"), self.usage_percent.to_json()));
        ms.push(
            (
                lit("temperature"),
                match &self.temperature {
                    Some(t) => t.to_json(),
                    None => Json::Null,
                },
            ),
        );
        let j = Json::Obj(ms);
        proof {
            lemma_deep_membs(ms@);
            assert(deep_membs(ms@) =~= (match self.json() {
                JsonV::Obj(s) => s,
                _ => Seq::empty(),
            }));
        }
        j
    }
}

/// RAM and swap usage.
#[derive(Debug)]
pub struct MemoryInfo {
    /// Total physical memory in bytes
    pub total: u64,
    /// Used physical memory in bytes
    pub used: u64,
    /// Free physical memory in bytes
    pub free: u64,
    /// Available physical memory in bytes
    pub available: u64,
    /// Total swap space in bytes
    pub swap_total: u64,
    /// Used swap space in bytes
    pub swap_used: u64,
    /// Free swap space in bytes
    pub swap_free: u64,
    /// Memory usage percentage token
    pub usage_percent: NumTok,
    /// Swap usage percentage token
    pub swap_usage_percent: NumTok,
}

impl MemoryInfo {
    pub open spec fn json(self) -> JsonV {
        JsonV::Obj(
            seq![
                (crate::json::sb("total"), ju64(self.total)),
                (crate::json::sb("used"), ju64(self.used)),
                (crate::json::sb("free"), ju64(self.free)),
                (crate::json::sb("available"), ju64(self.available)),
                (crate::json::sb("swap_total"), ju64(self.swap_total)),
                (crate::json::sb("swap_used"), ju64(self.swap_used)),
                (crate::json::sb("swap_free"), ju64(self.swap_free)),
                (crate::json::sb("usage_percent"), JsonV::Num(self.usage_percent.bytes())),
                (
                    crate::json::sb("swap_usage_percent"),
                    JsonV::Num(self.swap_usage_percent.bytes()),
                ),
            ],
        )
    }

    pub fn to_json(&self) -> (j: Json)
        ensures
            j.deep() == self.json(),
    {
        let mut ms: Vec<(Vec<u8>, Json)> = Vec::new();
        ms.push((lit("total"), json_u64(self.total)));
        ms.push((lit("used"), json_u64(self.used)));
        ms.push((lit("free"), json_u64(self.free)));
        ms.push((lit("available"), json_u64(self.available)));
        ms.push((lit("swap_total"), json_u64(self.swap_total)));
        ms.push((lit("swap_used"), json_u64(self.swap_used)));
        ms.push((lit("swap_free"), json_u64(self.swap_free)));
        ms.push((lit("usage_percent"), self.usage_percent.to_json()));
        ms.push((lit("swap_usage_percent"), self.swap_usage_percent.to_json()));
        let j = Json::Obj(ms);
        proof {
            lemma_deep_membs(ms@);
            assert(deep_membs(ms@) =~= (match self.json() {
                JsonV::Obj(s) => s,
                _ => Seq::empty(),
            }));
        }
        j
    }
}

/// One mounted filesystem.
#[derive(Debug)]
pub struct DiskInfo {
    /// Device name
    pub name: Vec<u8>,
    /// Mount point
    pub mount_point: Vec<u8>,
    /// File system type
    pub file_system: Vec<u8>,
    /// Total disk space in bytes
    pub total_space: u64,
    /// Used disk space in bytes
    pub used_space: u64,
    /// Free disk space in bytes
    pub free_space: u64,
    /// Disk usage percentage token
    pub usage_percent: NumTok,
}

impl DiskInfo {
    pub open spec fn json(self) -> JsonV {
        JsonV::Obj(
            seq![
                (crate::json::sb("name"), JsonV::Str(esc(self.name@))),
                (crate::json::sb("mount_point"), JsonV::Str(esc(self.mount_point@))),
                (crate::json::sb("file_system"), JsonV::Str(esc(self.file_system@))),
                (crate::json::sb("total_space"), ju64(self.total_space)),
                (crate::json::sb("used_space"), ju64(self.used_space)),
                (crate::json::sb("free_space"), ju64(self.free_space)),
                (crate::json::sb("usage_percent"), JsonV::Num(self.usage_percent.bytes())),
            ],
        )
    }

    pub fn to_json(&self) -> (j: Json)
        ensures
            j.deep() == self.json(),
    {
        let mut ms: Vec<(Vec<u8>, Json)> = Vec::new();
        ms.push((lit("name"), Json::Str(escape(self.name.as_slice()))));
        ms.push((lit("mount_point"), Json::Str(escape(self.mount_point.as_slice()))));
        ms.push((lit("file_system"), Json::Str(escape(self.file_system.as_slice()))));
        ms.push((lit("total_space"), json_u64(self.total_space)));
        ms.push((lit("used_space"), json_u64(self.used_space)));
        ms.push((lit("free_space"), json_u64(self.free_space)));
        ms.push((lit("usage_percent"), self.usage_percent.to_json()));
        let j = Json::Obj(ms);
        proof {
            lemma_deep_membs(ms@);
            assert(deep_membs(ms@) =~= (match self.json() {
                JsonV::Obj(s) => s,
                _ => Seq::empty(),
            }));
        }
        j
    }
}

/// One network interface.
#[derive(Debug)]
pub struct NetworkInfo {
    /// Network interface name
    pub interface: Vec<u8>,
    /// IP address
    pub ip_address: Vec<u8>,
    /// MAC address
    pub mac_address: Vec<u8>,
    /// Total bytes received
    pub bytes_received: u64,
    /// Total bytes transmitted
    pub bytes_transmitted: u64,
    /// Total packets received
    pub packets_received: u64,
    /// Total packets transmitted
    pub packets_transmitted: u64,
    /// Total receive errors
    pub errors_received: u64,
    /// Total transmit errors
    pub errors_transmitted: u64,
}

impl NetworkInfo {
    pub open spec fn json(self) -> JsonV {
        JsonV::Obj(
            seq![
                (crate::json::sb("interface"), JsonV::Str(esc(self.interface@))),
                (crate::json::sb("ip_address"), JsonV::Str(esc(self.ip_address@))),
                (crate::json::sb("mac_address"), JsonV::Str(esc(self.mac_address@))),
                (crate::json::sb("bytes_received"), ju64(self.bytes_received)),
                (crate::json::sb("bytes_transmitted"), ju64(self.bytes_transmitted)),
                (crate::json::sb("packets_received"), ju64(self.packets_received)),
                (crate::json::sb("packets_transmitted"), ju64(self.packets_transmitted)),
                (crate::json::sb("errors_received"), ju64(self.errors_received)),
                (crate::json::sb("errors_transmitted"), ju64(self.errors_transmitted)),
            ],
        )
    }

    pub fn to_json(&self) -> (j: Json)
        ensures
            j.deep() == self.json(),
    {
        let mut ms: Vec<(Vec<u8>, Json)> = Vec::new();
        ms.push((lit("interface"), Json::Str(escape(self.interface.as_slice()))));
        ms.push((lit("ip_address"), Json::Str(escape(self.ip_address.as_slice()))));
        ms.push((lit("mac_address"), Json::Str(escape(self.mac_address.as_slice()))));
        ms.push((lit("bytes_received"), json_u64(self.bytes_received)));
        ms.push((lit("bytes_transmitted"), json_u64(self.bytes_transmitted)));
        ms.push((lit("packets_received"), json_u64(self.packets_received)));
        ms.push((lit("packets_transmitted"), json_u64(self.packets_transmitted)));
        ms.push((lit("errors_received"), json_u64(self.errors_received)));
        ms.push((lit("errors_transmitted"), json_u64(self.errors_transmitted)));
        let j = Json::Obj(ms);
        proof {
            lemma_deep_membs(ms@);
            assert(deep_membs(ms@) =~= (match self.json() {
                JsonV::Obj(s) => s,
                _ => Seq::empty(),
            }));
        }
        j
    }
}

/// One running process.
#[derive(Debug)]
pub struct ProcessInfo {
    /// Process ID
    pub pid: u32,
    /// Process name
    pub name: Vec<u8>,
    /// Full command line
    pub command: Vec<u8>,
    /// CPU usage percentage token
    pub cpu_usage: NumTok,
    /// Memory usage in bytes
    pub memory_usage: u64,
    /// Memory usage percentage token
    pub memory_usage_percent: NumTok,
    /// Process status
    pub status: Vec<u8>,
    /// Process start time, pre-rendered as timestamp text
    pub start_time: Vec<u8>,
    /// Process owner
    pub user: Vec<u8>,
    /// Process priority
    pub priority: i32,
}

impl ProcessInfo {
    pub open spec fn json(self) -> JsonV {
        JsonV::Obj(
            seq![
                (crate::json::sb("pid"), JsonV::Int(self.pid as int)),
                (crate::json::sb("name"), JsonV::Str(esc(self.name@))),
                (crate::json::sb("command"), JsonV::Str(esc(self.command@))),
                (crate::json::sb("cpu_usage"), JsonV::Num(self.cpu_usage.bytes())),
                (crate::json::sb("memory_usage"), ju64(self.memory_usage)),
                (
                    crate::json::sb("memory_usage_percent"),
                    JsonV::Num(self.memory_usage_percent.bytes()),
                ),
                (crate::json::sb("status"), JsonV::Str(esc(self.status@))),
                (crate::json::sb("start_time"), JsonV::Str(esc(self.start_time@))),
                (crate::json::sb("user"), JsonV::Str(esc(self.user@))),
                (crate::json::sb("priority"), JsonV::Int(self.priority as int)),
            ],
        )
    }

    pub fn to_json(&self) -> (j: Json)
        ensures
            j.deep() == self.json(),
    {
        let mut ms: Vec<(Vec<u8>, Json)> = Vec::new();
        ms.push((lit("pid"), Json::Int(self.pid as i64)));
        ms.push((lit("name"), Json::Str(escape(self.name.as_slice()))));
        ms.push((lit("command"), Json::Str(escape(self.command.as_slice()))));
        ms.push((lit("cpu_usage"), self.cpu_usage.to_json()));
        ms.push((lit("memory_usage"), json_u64(self.memory_usage)));
        ms.push((lit("memory_usage_percent"), self.memory_usage_percent.to_json()));
        ms.push((lit("status"), Json::Str(escape(self.status.as_slice()))));
        ms.push((lit("start_time"), Json::Str(escape(self.start_time.as_slice()))));
        ms.push((lit("user"), Json::Str(escape(self.user.as_slice()))));
        ms.push((lit("priority"), Json::Int(self.priority as i64)));
        let j = Json::Obj(ms);
        proof {
            lemma_deep_membs(ms@);
            assert(deep_membs(ms@) =~= (match self.json() {
                JsonV::Obj(s) => s,
                _ => Seq::empty(),
            }));
        }
        j
    }
}

pub open spec fn disks_json(s: Seq<DiskInfo>) -> Seq<JsonV> {
    Seq::new(s.len(), |i: int| s[i].json())
}

pub open spec fn networks_json(s: Seq<NetworkInfo>) -> Seq<JsonV> {
    Seq::new(s.len(), |i: int| s[i].json())
}

pub open spec fn processes_json(s: Seq<ProcessInfo>) -> Seq<JsonV> {
    Seq::new(s.len(), |i: int| s[i].json())
}

/// The JSON array of a disk list.
pub fn disks_to_json(s: &Vec<DiskInfo>) -> (j: Json)
    ensures
        j.deep() == JsonV::Arr(disks_json(s@)),
{
    let mut es: Vec<Json> = Vec::new();
    let n: usize = s.len();
    let mut i: usize = 0;
    while i < n
        invariant
            0 <= i <= n,
            n == s@.len(),
            es@.len() == i,
            forall|k: int| 0 <= k < i ==> (#[trigger] es@[k]).deep() == s@[k].json(),
        decreases n - i,
    {
        let e = s[i].to_json();
        es.push(e);
        i = i + 1;
    }
    proof {
        lemma_deep_elems(es@);
        assert(deep_elems(es@) =~= disks_json(s@));
    }
    Json::Arr(es)
}

/// The JSON array of a network-interface list.
pub fn networks_to_json(s: &Vec<NetworkInfo>) -> (j: Json)
    ensures
        j.deep() == JsonV::Arr(networks_json(s@)),
{
    let mut es: Vec<Json> = Vec::new();
    let n: usize = s.len();
    let mut i: usize = 0;
    while i < n
        invariant
            0 <= i <= n,
            n == s@.len(),
            es@.len() == i,
            forall|k: int| 0 <= k < i ==> (#[trigger] es@[k]).deep() == s@[k].json(),
        decreases n - i,
    {
        let e = s[i].to_json();
        es.push(e);
        i = i + 1;
    }
    proof {
        lemma_deep_elems(es@);
        assert(deep_elems(es@) =~= networks_json(s@));
    }
    Json::Arr(es)
}

/// The JSON array of a process list.
pub fn processes_to_json(s: &Vec<ProcessInfo>) -> (j: Json)
    ensures
        j.deep() == JsonV::Arr(processes_json(s@)),
{
    let mut es: Vec<Json> = Vec::new();
    let n: usize = s.len();
    let mut i: usize = 0;
    while i < n
        invariant
            0 <= i <= n,
            n == s@.len(),
            es@.len() == i,
            forall|k: int| 0 <= k < i ==> (#[trigger] es@[k]).deep() == s@[k].json(),
        decreases n - i,
    {
        let e = s[i].to_json();
        es.push(e);
        i = i + 1;
    }
    proof {
        lemma_deep_elems(es@);
        assert(deep_elems(es@) =~= processes_json(s@));
    }
    Json::Arr(es)
}

/// A complete metrics snapshot.
#[derive(Debug)]
pub struct SystemMetrics {
    /// Collection timestamp, pre-rendered as timestamp text
    pub timestamp: Vec<u8>,
    /// System information
    pub system_info: SystemInfo,
    /// CPU information
    pub cpu_info: CPUInfo,
    /// Memory information
    pub memory_info: MemoryInfo,
    /// Disk information for all mounted filesystems
    pub disks: Vec<DiskInfo>,
    /// Network information for all interfaces
    pub networks: Vec<NetworkInfo>,
    /// Process information for all running processes
    pub processes: Vec<ProcessInfo>,
}

impl SystemMetrics {
    pub open spec fn json(self) -> JsonV {
        JsonV::Obj(
            seq![
                (crate::json::sb("timestamp"), JsonV::Str(esc(self.timestamp@))),
                (crate::json::sb("system_info"), self.system_info.json()),
                (crate::json::sb("cpu_info"), self.cpu_info.json()),
                (crate::json::sb("memory_info"), self.memory_info.json()),
                (crate::json::sb("disks"), JsonV::Arr(disks_json(self.disks@))),
                (crate::json::sb("networks"), JsonV::Arr(networks_json(self.networks@))),
                (crate::json::sb("processes"), JsonV::Arr(processes_json(self.processes@))),
            ],
        )
    }

    pub fn to_json(&self) -> (j: Json)
        ensures
            j.deep() == self.json(),
    {
        let mut ms: Vec<(Vec<u8>, Json)> = Vec::new();
        ms.push((lit("timestamp"), Json::Str(escape(self.timestamp.as_slice()))));
        ms.push((lit("system_info"), self.system_info.to_json()));
        ms.push((lit("cpu_info"), self.cpu_info.to_json()));
        ms.push((lit("memory_info"), self.memory_info.to_json()));
        ms.push((lit("disks"), disks_to_json(&self.disks)));
        ms.push((lit("networks"), networks_to_json(&self.networks)));
        ms.push((lit("processes"), processes_to_json(&self.processes)));
        let j = Json::Obj(ms);
        proof {
            lemma_deep_membs(ms@);
            assert(deep_membs(ms@) =~= (match self.json() {
                JsonV::Obj(s) => s,
                _ => Seq::empty(),
            }));
        }
        j
    }
}

} // verus!
