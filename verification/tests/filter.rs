use qubit::filter::http_filter;
use qubit::loader::event_from_payload;
use qubit::model::dotted_ip;

/// An Ethernet frame carrying an IPv4 TCP segment from 10.0.0.1:49152 to
/// 10.0.0.2:`dst_port`, with an IP header of `ihl` words, a TCP header of
/// five words and the given payload.
fn frame(ethertype: u16, proto: u8, ihl: u8, dst_port: u16, payload: &[u8]) -> Vec<u8> {
    let mut p = vec![0u8; 12];
    p.extend_from_slice(&ethertype.to_be_bytes());
    let mut ip = vec![0u8; (ihl as usize) * 4];
    ip[0] = 0x40 | ihl;
    ip[9] = proto;
    ip[12..16].copy_from_slice(&[10, 0, 0, 1]);
    ip[16..20].copy_from_slice(&[10, 0, 0, 2]);
    p.extend_from_slice(&ip);
    let mut tcp = vec![0u8; 20];
    tcp[0..2].copy_from_slice(&49152u16.to_be_bytes());
    tcp[2..4].copy_from_slice(&dst_port.to_be_bytes());
    tcp[12] = 0x50;
    p.extend_from_slice(&tcp);
    p.extend_from_slice(payload);
    p
}

const GET: &[u8] = b"GET /api/users HTTP/1.1\r\nHost: user-svc.prod:8080\r\n\r\n";

#[test]
fn http_request_to_port_80_is_captured() {
    let p = frame(0x0800, 6, 5, 80, GET);
    let e = http_filter(&p, 42).expect("captured");
    assert_eq!(e.timestamp_ns, 42);
    assert_eq!(e.src_port, 49152);
    assert_eq!(e.dst_port, 80);
    assert_eq!(e.src_ip, u32::from_ne_bytes([10, 0, 0, 1]));
    assert_eq!(e.dst_ip, u32::from_ne_bytes([10, 0, 0, 2]));
    assert_eq!(e.payload_len as usize, GET.len());
    assert_eq!(&e.payload[..GET.len()], GET);
    assert!(e.payload[GET.len()..].iter().all(|b| *b == 0));
    assert_eq!(e._padding, 0);
}

#[test]
fn http_request_to_port_8080_is_captured() {
    let p = frame(0x0800, 6, 5, 8080, GET);
    assert_eq!(http_filter(&p, 1).map(|e| e.dst_port), Some(8080));
}

#[test]
fn captured_event_reaches_the_parsed_request() {
    let p = frame(0x0800, 6, 5, 80, GET);
    let e = http_filter(&p, 7).expect("captured");
    let parsed = event_from_payload(&e).expect("parsed");
    assert_eq!(parsed.method, "GET");
    assert_eq!(parsed.path, "/api/users");
    assert_eq!(parsed.host, "user-svc.prod");
    assert_eq!(dotted_ip(u32::from_be(parsed.src_ip)), "10.0.0.1");
    assert_eq!(dotted_ip(u32::from_be(parsed.dst_ip)), "10.0.0.2");
}

#[test]
fn ip_options_shift_the_tcp_header() {
    let p = frame(0x0800, 6, 7, 80, GET);
    let e = http_filter(&p, 0).expect("captured");
    assert_eq!(e.src_port, 49152);
    assert_eq!(&e.payload[..GET.len()], GET);
}

#[test]
fn ipv6_frame_is_not_captured() {
    assert!(http_filter(&frame(0x86DD, 6, 5, 80, GET), 0).is_none());
}

#[test]
fn udp_segment_is_not_captured() {
    assert!(http_filter(&frame(0x0800, 17, 5, 80, GET), 0).is_none());
}

#[test]
fn other_port_is_not_captured() {
    assert!(http_filter(&frame(0x0800, 6, 5, 443, GET), 0).is_none());
}

#[test]
fn segment_without_payload_is_not_captured() {
    assert!(http_filter(&frame(0x0800, 6, 5, 80, b""), 0).is_none());
}

#[test]
fn payload_not_starting_with_capital_is_not_captured() {
    assert!(http_filter(&frame(0x0800, 6, 5, 80, b"get / HTTP/1.1\r\n"), 0).is_none());
    assert!(http_filter(&frame(0x0800, 6, 5, 80, &[0x16, 0x03, 0x01]), 0).is_none());
}

#[test]
fn truncated_frame_is_not_captured() {
    let p = frame(0x0800, 6, 5, 80, GET);
    assert!(http_filter(&p[..30], 0).is_none());
    assert!(http_filter(&[], 0).is_none());
}

#[test]
fn long_payload_is_clamped_to_128_bytes() {
    let mut body = b"POST /upload HTTP/1.1\r\n".to_vec();
    body.resize(300, b'x');
    let e = http_filter(&frame(0x0800, 6, 5, 80, &body), 0).expect("captured");
    assert_eq!(e.payload_len, 128);
    assert_eq!(&e.payload[..], &body[..128]);
}
