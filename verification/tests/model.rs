use qubit::agent_config::{core_endpoint, endpoint_url, KubernetesConfig, QubitCoreConfig};
use qubit::loader::{default_ebpf_path, event_from_payload, event_request, loader_endpoint, EbpfLoader, EbpfLoaderConfig};
use qubit::model::{dotted_ip, EbpfNetworkEventInput, Error};
use qubit::payload::TcpPayloadEvent;
use std::sync::Arc;

#[test]
fn dotted_ips() {
    assert_eq!(dotted_ip(0x0a00_0001), "10.0.0.1");
    assert_eq!(dotted_ip(0), "0.0.0.0");
    assert_eq!(dotted_ip(u32::MAX), "255.255.255.255");
    assert_eq!(dotted_ip(0xc0a8_0102), "192.168.1.2");
}

#[test]
fn input_addresses_as_text() {
    let input = EbpfNetworkEventInput {
        timestamp_ns: 0,
        src_ip: u32::from_ne_bytes([10, 0, 0, 1]),
        dst_ip: u32::from_ne_bytes([192, 168, 7, 9]),
        src_port: 1,
        dst_port: 2,
        method: String::new(),
        path: String::new(),
        host: String::new(),
    };
    assert_eq!(input.src_ip_str(), "10.0.0.1");
    assert_eq!(input.dst_ip_str(), "192.168.7.9");
}

#[test]
fn error_messages() {
    assert_eq!(Error::SchemaInitializationFailed("x".into()).message(), "Failed to initialize ClickHouse schema: x");
    assert_eq!(Error::EventAdditionFailed("x".into()).message(), "Failed to add event: x");
    assert_eq!(Error::EventFetchingFailed("x".into()).message(), "Failed to fetch events: x");
    assert_eq!(Error::EbpfEventRecordingFailed("lock".into()).message(), "Failed to record ebpf event: lock");
    assert_eq!(Error::EnvoyRequestFailed("".into()).message(), "Envoy admin API request failed: ");
}

#[test]
fn endpoints_and_defaults() {
    assert_eq!(endpoint_url("192.168.5.2", 50051), "http://192.168.5.2:50051");
    let core = QubitCoreConfig { host: "core".to_string(), grpc_port: 7 };
    assert_eq!(core_endpoint(&core), "http://core:7");
    assert_eq!(KubernetesConfig::default().namespace, "");
    assert_eq!(default_ebpf_path(), "/workspace/ebpf/target/bpfel-unknown-none/release/ebpf");
}

fn loader_config() -> EbpfLoaderConfig {
    EbpfLoaderConfig {
        qubit_core: qubit::loader::QubitCoreConfig { host: "h".to_string(), grpc_port: 1 },
        perf_array_name: "NETWORK_EVENTS".to_string(),
        ebpf_path: default_ebpf_path(),
    }
}

#[test]
fn loader_keeps_its_settings() {
    let config = Arc::new(loader_config());
    let loader = EbpfLoader::new(config.clone(), "NETWORK_EVENTS".to_string());
    assert_eq!(loader.perf_array_name(), "NETWORK_EVENTS");
    assert_eq!(loader.config().qubit_core.host, "h");
    assert_eq!(loader_endpoint(&loader_config()), "http://h:1");
}

fn payload(bytes: &[u8]) -> TcpPayloadEvent {
    let mut e = TcpPayloadEvent::default();
    e.payload[..bytes.len()].copy_from_slice(bytes);
    e.payload_len = bytes.len() as u16;
    e.src_port = 40000;
    e.dst_port = 80;
    e.timestamp_ns = 99;
    e
}

#[test]
fn payload_events_need_a_method() {
    assert!(event_from_payload(&payload(b"garbage")).is_none());
    let e = event_from_payload(&payload(b"GET /x HTTP/1.1\r\nHost: svc:80\r\n")).unwrap();
    assert_eq!(e.method, "GET");
    assert_eq!(e.path, "/x");
    assert_eq!(e.host, "svc");
    assert_eq!(e.timestamp_ns, 99);
    let r = event_request(e);
    assert_eq!(r.src_port, 40000);
    assert_eq!(r.dst_port, 80);
    let e = event_from_payload(&payload(b"GET /x")).unwrap();
    assert_eq!(e.host, "");
}
