use qubit::payload::TcpPayloadEvent;

fn make_event(payload: &[u8]) -> TcpPayloadEvent {
    let mut event = TcpPayloadEvent::default();
    let copy_len = payload.len().min(event.payload.len());
    event.payload[..copy_len].copy_from_slice(&payload[..copy_len]);
    event.payload_len = copy_len as u16;
    event
}

#[test]
fn parse_method_get() {
    let event = make_event(b"GET /index HTTP/1.1\r\nHost: svc\r\n\r\n");
    assert_eq!(event.parse_method(), Some("GET".to_string()));
}

#[test]
fn parse_method_post() {
    let event = make_event(b"POST /api/v1 HTTP/1.1\r\nHost: svc\r\n\r\n");
    assert_eq!(event.parse_method(), Some("POST".to_string()));
}

#[test]
fn parse_method_malformed_no_space() {
    let event = make_event(b"NOTHTTP");
    assert_eq!(event.parse_method(), None);
}

#[test]
fn parse_path_standard() {
    let event = make_event(b"GET /api/v1/users HTTP/1.1\r\n");
    assert_eq!(event.parse_path(), Some("/api/v1/users".to_string()));
}

#[test]
fn parse_path_root() {
    let event = make_event(b"GET / HTTP/1.1\r\n");
    assert_eq!(event.parse_path(), Some("/".to_string()));
}

#[test]
fn parse_host_present() {
    let event =
        make_event(b"GET / HTTP/1.1\r\nHost: service-b.default\r\nContent-Length: 0\r\n\r\n");
    assert_eq!(event.parse_host(), Some("service-b.default".to_string()));
}

#[test]
fn parse_host_port_stripped() {
    let event = make_event(b"GET / HTTP/1.1\r\nHost: service-b:80\r\n\r\n");
    assert_eq!(event.parse_host(), Some("service-b".to_string()));
}

#[test]
fn parse_host_absent() {
    let event = make_event(b"GET / HTTP/1.1\r\nContent-Length: 0\r\n\r\n");
    assert_eq!(event.parse_host(), None);
}

// ── further cases ────────────────────────────────────────────────────────────

#[test]
fn payload_bytes_stop_at_the_captured_length() {
    let mut event = make_event(b"GET / HTTP/1.1");
    assert_eq!(event.payload_bytes(), b"GET / HTTP/1.1".to_vec());
    event.payload_len = 500;
    assert_eq!(event.payload_bytes().len(), 128);
}

#[test]
fn parse_path_without_second_space_runs_to_the_end() {
    let event = make_event(b"GET /only");
    assert_eq!(event.parse_path(), Some("/only".to_string()));
    assert_eq!(make_event(b"NOSPACE").parse_path(), None);
}

#[test]
fn parse_host_is_case_insensitive_and_skips_tabs() {
    let event = make_event(b"GET / HTTP/1.1\r\nhOsT:\t  api.local:8080\r\n");
    assert_eq!(event.parse_host(), Some("api.local".to_string()));
}

#[test]
fn parse_host_with_nothing_after_the_tag() {
    assert_eq!(make_event(b"GET / HTTP/1.1\r\nHost:   ").parse_host(), None);
    assert_eq!(make_event(b"GET / HTTP/1.1\r\nHost:\r\n").parse_host(), Some(String::new()));
}

#[test]
fn invalid_utf8_method_is_none() {
    let event = make_event(&[0xff, 0xfe, b' ', b'/']);
    assert_eq!(event.parse_method(), None);
}

#[test]
fn payload_str_is_the_first_line() {
    assert_eq!(make_event(b"GET / HTTP/1.1\r\nHost: a\r\n").payload_str(), "GET / HTTP/1.1");
    assert_eq!(make_event(b"single line").payload_str(), "single line");
    assert_eq!(make_event(b"").payload_str(), "");
    assert_eq!(make_event(b"ends with cr\r").payload_str(), "ends with cr\r");
    assert_eq!(make_event(&[b'a', 0xff, b'\n', b'b']).payload_str(), "a\u{fffd}");
}

#[test]
fn long_payload_is_truncated_to_capacity() {
    let mut long = b"GET /".to_vec();
    long.extend(std::iter::repeat(b'x').take(200));
    long.extend(b" HTTP/1.1");
    let event = make_event(&long);
    assert_eq!(event.payload_len, 128);
    assert_eq!(event.parse_path().unwrap().len(), 124);
}
