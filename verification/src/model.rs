//! The events that flow through the core service, and its error type.

use vstd::prelude::*;
use crate::text::{decimal_digits, decimal_text};

verus! {

/// Incoming event from the eBPF loader (IPs as u32 from network packets)
pub struct EbpfNetworkEventInput {
    pub timestamp_ns: u64,
    pub src_ip: u32,
    pub dst_ip: u32,
    pub src_port: u16,
    pub dst_port: u16,
    pub method: String,
    pub path: String,
    pub host: String,
}

/// `x` with its four bytes in the opposite order.
pub open spec fn swapped_bytes(x: u32) -> u32 {
    ((x & 0xff) << 24u32) | (((x >> 8u32) & 0xff) << 16u32) | (((x >> 16u32) & 0xff) << 8u32) | (x
        >> 24u32)
}

/// Reads an address in network byte order through `u32::from_be`: on a
/// little-endian machine the bytes are swapped, on a big-endian one they
/// are kept; which of the two applies depends on the machine.
#[verifier::external_body]
fn from_network_order(x: u32) -> (r: u32)
    ensures
        r == x || r == swapped_bytes(x),
{
    u32::from_be(x)
}

/// The dotted-decimal text of an IPv4 address given as a host-order `u32`.
pub open spec fn ip_text(v: u32) -> Seq<char> {
    decimal_digits((v >> 24u32) as nat) + seq!['.'] + decimal_digits(((v >> 16u32) & 0xff) as nat)
        + seq!['.'] + decimal_digits(((v >> 8u32) & 0xff) as nat) + seq!['.'] + decimal_digits(
        (v & 0xff) as nat,
    )
}

/// The dotted-decimal text of an IPv4 address given as a host-order `u32`.
pub fn dotted_ip(v: u32) -> (r: String)
    ensures
        r@ == ip_text(v),
{
    let mut s = decimal_text((v >> 24u32) as u64);
    s.append(".");
    let b = decimal_text(((v >> 16u32) & 0xff) as u64);
    s.append(b.as_str());
    s.append(".");
    let c = decimal_text(((v >> 8u32) & 0xff) as u64);
    s.append(c.as_str());
    s.append(".");
    let d = decimal_text((v & 0xff) as u64);
    s.append(d.as_str());
    proof {
        reveal_strlit(".");
    }
    assert(s@ =~= ip_text(v));
    s
}

/// What the text of a raw packet address may be: the address read in one
/// byte order or the other, as the machine's byte order decides.
pub open spec fn raw_ip_text(raw: u32, text: Seq<char>) -> bool {
    text == ip_text(raw) || text == ip_text(swapped_bytes(raw))
}

impl EbpfNetworkEventInput {
    /// Convert raw u32 IPs from the eBPF packet to human-readable strings.
    pub fn src_ip_str(&self) -> (r: String)
        ensures
            raw_ip_text(self.src_ip, r@),
    {
        dotted_ip(from_network_order(self.src_ip))
    }

    /// The destination address as text.
    pub fn dst_ip_str(&self) -> (r: String)
        ensures
            raw_ip_text(self.dst_ip, r@),
    {
        dotted_ip(from_network_order(self.dst_ip))
    }
}

/// Event stored in ClickHouse — uses resolved service names, not raw IPs.
/// The AI agent queries by service name ("show me traffic from service-a"),
/// so storing resolved names avoids a lookup at query time.
pub struct EbpfNetworkEvent {
    pub timestamp_ns: u64,
    pub src_service: String,
    pub src_namespace: String,
    pub dst_service: String,
    pub dst_namespace: String,
    pub src_port: u16,
    pub dst_port: u16,
    pub method: String,
    pub path: String,
    pub host: String,
}

/// The mathematical content of an `EbpfNetworkEvent`.
pub struct EbpfNetworkEventView {
    pub timestamp_ns: u64,
    pub src_service: Seq<char>,
    pub src_namespace: Seq<char>,
    pub dst_service: Seq<char>,
    pub dst_namespace: Seq<char>,
    pub src_port: u16,
    pub dst_port: u16,
    pub method: Seq<char>,
    pub path: Seq<char>,
    pub host: Seq<char>,
}

impl View for EbpfNetworkEvent {
    type V = EbpfNetworkEventView;

    open spec fn view(&self) -> EbpfNetworkEventView {
        EbpfNetworkEventView {
            timestamp_ns: self.timestamp_ns,
            src_service: self.src_service@,
            src_namespace: self.src_namespace@,
            dst_service: self.dst_service@,
            dst_namespace: self.dst_namespace@,
            src_port: self.src_port,
            dst_port: self.dst_port,
            method: self.method@,
            path: self.path@,
            host: self.host@,
        }
    }
}

/// The text of a stored event.
pub open spec fn event_text(e: EbpfNetworkEventView) -> Seq<char> {
    "HTTP: "@ + e.src_namespace + "/"@ + e.src_service + ":"@ + decimal_digits(e.src_port as nat)
        + " --> "@ + e.dst_namespace + "/"@ + e.dst_service + ":"@ + decimal_digits(e.dst_port as nat)
        + " | "@ + e.method + " "@ + e.path + " | host="@ + e.host
}

impl EbpfNetworkEvent {
    /// The text of the event:
    /// `HTTP: ns/svc:port --> ns/svc:port | method path | host=host`.
    pub fn text(&self) -> (r: String)
        ensures
            r@ == event_text(self@),
    {
        let mut s = "HTTP: ".to_string();
        s.append(self.src_namespace.as_str());
        s.append("/");
        s.append(self.src_service.as_str());
        s.append(":");
        s.append(decimal_text(self.src_port as u64).as_str());
        s.append(" --> ");
        s.append(self.dst_namespace.as_str());
        s.append("/");
        s.append(self.dst_service.as_str());
        s.append(":");
        s.append(decimal_text(self.dst_port as u64).as_str());
        s.append(" | ");
        s.append(self.method.as_str());
        s.append(" ");
        s.append(self.path.as_str());
        s.append(" | host=");
        s.append(self.host.as_str());
        s
    }
}

/// The views of a list of stored events.
pub open spec fn events_view(s: Seq<EbpfNetworkEvent>) -> Seq<EbpfNetworkEventView> {
    s.map_values(|e: EbpfNetworkEvent| e@)
}

/// K8s resource event stored in ClickHouse.
pub struct K8sResourceEvent {
    /// DateTime in ClickHouse = epoch seconds as u32
    pub event_time: u32,
    /// "Deployment", "Event", "Node", etc.
    pub resource_type: String,
    pub name: String,
    pub namespace: String,
    /// "Applied" or "Deleted"
    pub event_type: String,
    /// JSON-encoded label map
    pub labels: String,
    /// Resource-specific JSON (Event reason/message, etc.)
    pub resource_data: String,
}

/// The failures of the core service.
pub enum Error {
    SchemaInitializationFailed(String),
    EventAdditionFailed(String),
    EventFetchingFailed(String),
    EbpfEventRecordingFailed(String),
    EnvoyRequestFailed(String),
}

/// The text of an error: what failed, then the cause.
pub open spec fn error_text(e: Error) -> Seq<char> {
    match e {
        Error::SchemaInitializationFailed(s) => "Failed to initialize ClickHouse schema: "@ + s@,
        Error::EventAdditionFailed(s) => "Failed to add event: "@ + s@,
        Error::EventFetchingFailed(s) => "Failed to fetch events: "@ + s@,
        Error::EbpfEventRecordingFailed(s) => "Failed to record ebpf event: "@ + s@,
        Error::EnvoyRequestFailed(s) => "Envoy admin API request failed: "@ + s@,
    }
}

impl Error {
    /// The human-readable text of the error.
    pub fn message(&self) -> (r: String)
        ensures
            r@ == error_text(*self),
    {
        match self {
            Error::SchemaInitializationFailed(s) => {
                let mut m = "Failed to initialize ClickHouse schema: ".to_string();
                m.append(s.as_str());
                m
            },
            Error::EventAdditionFailed(s) => {
                let mut m = "Failed to add event: ".to_string();
                m.append(s.as_str());
                m
            },
            Error::EventFetchingFailed(s) => {
                let mut m = "Failed to fetch events: ".to_string();
                m.append(s.as_str());
                m
            },
            Error::EbpfEventRecordingFailed(s) => {
                let mut m = "Failed to record ebpf event: ".to_string();
                m.append(s.as_str());
                m
            },
            Error::EnvoyRequestFailed(s) => {
                let mut m = "Envoy admin API request failed: ".to_string();
                m.append(s.as_str());
                m
            },
        }
    }
}

} // verus!
