//! The user-space side of the eBPF probe: what it makes of a captured
//! payload and what it sends to the core service.

use vstd::prelude::*;
use std::sync::Arc;
use crate::agent_config::{endpoint_text, endpoint_url};
use crate::payload::{captured, host_of, method_of, opt_view, path_of, TcpPayloadEvent};

verus! {

/// Settings of the eBPF loader.
pub struct EbpfLoaderConfig {
    pub qubit_core: QubitCoreConfig,
    pub perf_array_name: String,
    pub ebpf_path: String,
}

/// Where the core service listens for gRPC.
pub struct QubitCoreConfig {
    pub host: String,
    pub grpc_port: u16,
}

/// Where the compiled eBPF program is looked for when the settings name no
/// path.
pub fn default_ebpf_path() -> (r: String)
    ensures
        r@ == "/workspace/ebpf/target/bpfel-unknown-none/release/ebpf"@,
{
    "/workspace/ebpf/target/bpfel-unknown-none/release/ebpf".to_string()
}

/// Loads the probe and reads the events it captures.
pub struct EbpfLoader {
    perf_array_name: String,
    config: Arc<EbpfLoaderConfig>,
}

impl EbpfLoader {
    /// A loader for the given settings, reading the named perf array.
    pub fn new(config: Arc<EbpfLoaderConfig>, perf_array_name: String) -> (r: Self)
        ensures
            r.perf_array()@ == perf_array_name@,
            r.settings() == config,
    {
        EbpfLoader { perf_array_name, config }
    }

    /// The perf array the loader reads.
    pub closed spec fn perf_array(&self) -> String {
        self.perf_array_name
    }

    /// The settings of the loader.
    pub closed spec fn settings(&self) -> Arc<EbpfLoaderConfig> {
        self.config
    }

    /// The name of the perf array the loader reads.
    pub fn perf_array_name(&self) -> (r: &String)
        ensures
            *r == self.perf_array(),
    {
        &self.perf_array_name
    }

    /// The settings of the loader.
    pub fn config(&self) -> (r: &Arc<EbpfLoaderConfig>)
        ensures
            *r == self.settings(),
    {
        &self.config
    }
}

/// An HTTP request seen by the probe.
pub struct EbpfNetworkEvent {
    pub timestamp_ns: u64,
    pub src_ip: u32,
    pub dst_ip: u32,
    pub src_port: u16,
    pub dst_port: u16,
    pub method: String,
    pub path: String,
    pub host: String,
}

/// The text, or the empty text.
pub open spec fn text_or_empty(t: Option<Seq<char>>) -> Seq<char> {
    match t {
        Some(s) => s,
        None => Seq::empty(),
    }
}

/// What the loader reports of a captured payload: nothing when no method
/// can be read; otherwise the method, path and host read from it (empty
/// when unreadable) with the addresses, ports and time of the capture.
pub open spec fn reported(e: TcpPayloadEvent) -> Option<(Seq<char>, Seq<char>, Seq<char>)> {
    let method = text_or_empty(method_of(captured(e)));
    if method.len() == 0 {
        None
    } else {
        Some((method, text_or_empty(path_of(captured(e))), text_or_empty(host_of(captured(e)))))
    }
}

fn or_default(s: Option<String>) -> (r: String)
    ensures
        r@ == text_or_empty(opt_view(s)),
{
    match s {
        Some(v) => v,
        None => String::new(),
    }
}

/// Parses HTTP in user space: the event to report for a captured payload,
/// none when the payload has no method.
pub fn event_from_payload(event: &TcpPayloadEvent) -> (r: Option<EbpfNetworkEvent>)
    ensures
        match reported(*event) {
            None => r is None,
            Some((method, path, host)) => r is Some && r->0.method@ == method && r->0.path@ == path
                && r->0.host@ == host && r->0.timestamp_ns == event.timestamp_ns && r->0.src_ip
                == event.src_ip && r->0.dst_ip == event.dst_ip && r->0.src_port == event.src_port
                && r->0.dst_port == event.dst_port,
        },
{
    let method = or_default(event.parse_method());
    let path = or_default(event.parse_path());
    let host = or_default(event.parse_host());
    if method.as_str().is_empty() {
        return None;
    }
    Some(
        EbpfNetworkEvent {
            timestamp_ns: event.timestamp_ns,
            src_ip: event.src_ip,
            dst_ip: event.dst_ip,
            src_port: event.src_port,
            dst_port: event.dst_port,
            method,
            path,
            host,
        },
    )
}

/// The request that carries an event to the core service.
pub struct EbpfNetworkEventRequest {
    pub timestamp_ns: u64,
    pub src_ip: u32,
    pub dst_ip: u32,
    pub src_port: u32,
    pub dst_port: u32,
    pub method: String,
    pub path: String,
    pub host: String,
}

/// The request for an event: the same fields, ports widened.
pub fn event_request(event: EbpfNetworkEvent) -> (r: EbpfNetworkEventRequest)
    ensures
        r.timestamp_ns == event.timestamp_ns,
        r.src_ip == event.src_ip,
        r.dst_ip == event.dst_ip,
        r.src_port == event.src_port as u32,
        r.dst_port == event.dst_port as u32,
        r.method == event.method,
        r.path == event.path,
        r.host == event.host,
{
    EbpfNetworkEventRequest {
        timestamp_ns: event.timestamp_ns,
        src_ip: event.src_ip,
        dst_ip: event.dst_ip,
        src_port: event.src_port as u32,
        dst_port: event.dst_port as u32,
        method: event.method,
        path: event.path,
        host: event.host,
    }
}

/// The gRPC endpoint of the core service for the loader.
pub fn loader_endpoint(config: &EbpfLoaderConfig) -> (r: String)
    ensures
        r@ == endpoint_text(config.qubit_core.host@, config.qubit_core.grpc_port),
{
    endpoint_url(config.qubit_core.host.as_str(), config.qubit_core.grpc_port)
}

} // verus!
