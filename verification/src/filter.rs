//! The socket filter's decision: which packets are HTTP requests worth
//! capturing, and what the captured event holds. The packet is an Ethernet
//! frame; every read past its end makes the filter let the packet pass
//! without an event.

use vstd::prelude::*;
use crate::payload::{TcpPayloadEvent, MAX_PAYLOAD};

verus! {

/// The EtherType of IPv4.
pub const ETH_P_IP: u16 = 0x0800;

/// The IP protocol number of TCP.
pub const IPPROTO_TCP: u8 = 6;

/// The length of an Ethernet header.
pub const ETH_HDR_LEN: usize = 14;

/// The big-endian 16-bit value of bytes `i` and `i + 1`.
pub open spec fn be16(p: Seq<u8>, i: int) -> int {
    p[i] * 256 + p[i + 1]
}

/// Four bytes read as a little-endian `u32`.
pub open spec fn le32(a: u8, b: u8, c: u8, d: u8) -> int {
    a + b * 0x100 + c * 0x1_0000 + d * 0x100_0000
}

/// Four bytes read as a big-endian `u32`.
pub open spec fn be32(a: u8, b: u8, c: u8, d: u8) -> int {
    le32(d, c, b, a)
}

/// Where the TCP header starts: after the Ethernet header and the IP
/// header, whose length in words is the low nibble of its first byte.
pub open spec fn tcp_start(p: Seq<u8>) -> int {
    ETH_HDR_LEN + (p[14] % 16) * 4
}

/// Where the TCP payload starts: after the TCP header, whose length in
/// words is the high nibble of its byte 12.
pub open spec fn payload_offset(p: Seq<u8>) -> int {
    tcp_start(p) + (p[tcp_start(p) + 12] / 16) * 4
}

/// How many payload bytes are copied: what the packet holds after the
/// headers, at most `MAX_PAYLOAD`.
pub open spec fn copy_len(p: Seq<u8>) -> int {
    let avail = p.len() - payload_offset(p);
    if avail < MAX_PAYLOAD { avail } else { MAX_PAYLOAD as int }
}

/// The packet is captured: an IPv4 TCP segment to port 80 or 8080 whose
/// payload is not empty and starts with an ASCII capital letter, with
/// every header field the filter reads inside the frame.
pub open spec fn captured(p: Seq<u8>) -> bool {
    &&& p.len() >= 34
    &&& be16(p, 12) == ETH_P_IP
    &&& p[23] == IPPROTO_TCP
    &&& tcp_start(p) + 13 <= p.len()
    &&& (be16(p, tcp_start(p) + 2) == 80 || be16(p, tcp_start(p) + 2) == 8080)
    &&& payload_offset(p) < p.len()
    &&& 0x41 <= p[payload_offset(p)] <= 0x5A
}

/// The four bytes at `i` read in the machine's byte order: either order.
pub open spec fn native32(p: Seq<u8>, i: int, r: u32) -> bool {
    r == le32(p[i], p[i + 1], p[i + 2], p[i + 3]) || r == be32(p[i], p[i + 1], p[i + 2], p[i + 3])
}

/// The event a captured packet yields at time `timestamp_ns`, its two
/// addresses aside (they are read in the machine's byte order).
pub open spec fn event_of(p: Seq<u8>, timestamp_ns: u64, e: TcpPayloadEvent) -> bool {
    &&& e.timestamp_ns == timestamp_ns
    &&& native32(p, 26, e.src_ip)
    &&& native32(p, 30, e.dst_ip)
    &&& e.src_port == be16(p, tcp_start(p))
    &&& e.dst_port == be16(p, tcp_start(p) + 2)
    &&& e.payload_len == copy_len(p)
    &&& e._padding == 0
    &&& forall|k: int| 0 <= k < copy_len(p) ==> #[trigger] e.payload@[k] == p[payload_offset(p) + k]
    &&& forall|k: int| copy_len(p) <= k < MAX_PAYLOAD ==> #[trigger] e.payload@[k] == 0u8
}

/// Reads four bytes in the machine's byte order, through
/// `u32::from_ne_bytes`. Which order that is depends on the machine, so the
/// contract states only that it is one of the two.
#[verifier::external_body]
fn from_native_bytes(a: u8, b: u8, c: u8, d: u8) -> (r: u32)
    ensures
        r == le32(a, b, c, d) || r == be32(a, b, c, d),
{
    u32::from_ne_bytes([a, b, c, d])
}

/// The big-endian 16-bit value at `i`.
fn read_be16(p: &[u8], i: usize) -> (r: u16)
    requires
        i + 2 <= p@.len(),
    ensures
        r == be16(p@, i as int),
{
    (p[i] as u16) * 256 + (p[i + 1] as u16)
}

/// The socket filter: the event to publish for an Ethernet frame seen at
/// `timestamp_ns`, or `None` when the frame is not an HTTP request worth
/// capturing. The filter's verdict for the socket itself is always zero:
/// the packet is observed, never delivered.
pub fn http_filter(packet: &[u8], timestamp_ns: u64) -> (r: Option<TcpPayloadEvent>)
    ensures
        r is Some <==> captured(packet@),
        r matches Some(e) ==> event_of(packet@, timestamp_ns, e),
{
    let p = packet;
    let len = p.len();
    if len < 14 || read_be16(p, 12) != ETH_P_IP {
        return None;
    }
    if len < 24 || p[23] != IPPROTO_TCP {
        return None;
    }
    let ip_hdr_len = ((p[ETH_HDR_LEN] % 16) as usize) * 4;
    let tcp = ETH_HDR_LEN + ip_hdr_len;
    if tcp + 4 > len {
        return None;
    }
    let dst_port = read_be16(p, tcp + 2);
    if dst_port != 80 && dst_port != 8080 {
        return None;
    }
    let src_port = read_be16(p, tcp);
    if tcp + 13 > len {
        return None;
    }
    let tcp_hdr_len = ((p[tcp + 12] / 16) as usize) * 4;
    let offset = tcp + tcp_hdr_len;
    if offset >= len {
        return None;
    }
    let avail = len - offset;
    let n = if avail < MAX_PAYLOAD { avail } else { MAX_PAYLOAD };
    let first = p[offset];
    if !(0x41u8 <= first && first <= 0x5Au8) {
        return None;
    }
    if len < 34 {
        return None;
    }
    let src_ip = from_native_bytes(p[26], p[27], p[28], p[29]);
    let dst_ip = from_native_bytes(p[30], p[31], p[32], p[33]);
    let mut payload = [0u8; 128];
    let mut k: usize = 0;
    while k < n
        invariant
            n == copy_len(p@),
            offset == payload_offset(p@),
            offset + n <= p@.len(),
            n <= MAX_PAYLOAD,
            k <= n,
            payload@.len() == 128,
            forall|j: int| 0 <= j < k ==> #[trigger] payload@[j] == p@[offset + j],
            forall|j: int| n <= j < 128 ==> #[trigger] payload@[j] == 0u8,
        decreases n - k,
    {
        payload[k] = p[offset + k];
        k = k + 1;
    }
    Some(
        TcpPayloadEvent {
            timestamp_ns,
            src_ip,
            dst_ip,
            src_port,
            dst_port,
            payload_len: n as u16,
            _padding: 0,
            payload,
        },
    )
}

} // verus!
