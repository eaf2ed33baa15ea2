use qubit::host::{ipv4_text, parse_k8s_host};

#[test]
fn parse_fqdn() {
    let (svc, ns) = parse_k8s_host("service-b.default.svc.cluster.local");
    assert_eq!(svc, "service-b");
    assert_eq!(ns, "default");
}

#[test]
fn parse_svc_short() {
    let (svc, ns) = parse_k8s_host("service-b.default.svc");
    assert_eq!(svc, "service-b");
    assert_eq!(ns, "default");
}

#[test]
fn parse_service_only() {
    let (svc, ns) = parse_k8s_host("service-b");
    assert_eq!(svc, "service-b");
    assert_eq!(ns, "unknown");
}

#[test]
fn parse_ip_passthrough() {
    let (svc, ns) = parse_k8s_host("10.244.0.3");
    assert_eq!(svc, "10.244.0.3");
    assert_eq!(ns, "unknown");
}

#[test]
fn parse_strips_port() {
    let (svc, ns) = parse_k8s_host("service-b.default.svc:80");
    assert_eq!(svc, "service-b");
    assert_eq!(ns, "default");
}

#[test]
fn parse_external_domain() {
    let (svc, ns) = parse_k8s_host("httpbin.org");
    assert_eq!(svc, "httpbin.org");
    assert_eq!(ns, "external");
}

#[test]
fn parse_external_subdomain() {
    let (svc, ns) = parse_k8s_host("api.github.com");
    assert_eq!(svc, "api.github.com");
    assert_eq!(ns, "external");
}

// ── further cases ────────────────────────────────────────────────────────────

#[test]
fn ipv4_text_accepts_dotted_quads_only() {
    for s in ["10.244.0.3", "0.0.0.0", "255.255.255.255", "9.99.199.255"] {
        assert!(ipv4_text(s), "{}", s);
    }
    for s in [
        "256.1.1.1", "01.2.3.4", "1.2.3", "1.2.3.4.5", "1..2.3", "a.b.c.d", "1.2.3.4 ", "",
        "1234.1.1.1", "0.00.1.1", "+1.2.3.4",
    ] {
        assert!(!ipv4_text(s), "{}", s);
    }
}

#[test]
fn parse_ip_with_port() {
    assert_eq!(
        parse_k8s_host("10.0.0.7:8080"),
        ("10.0.0.7".to_string(), "unknown".to_string())
    );
}

#[test]
fn parse_malformed_ip_is_external() {
    assert_eq!(
        parse_k8s_host("10.0.0.256"),
        ("10.0.0.256".to_string(), "external".to_string())
    );
}

#[test]
fn parse_svc_marker_anywhere() {
    assert_eq!(
        parse_k8s_host("a.svc"),
        ("a".to_string(), "svc".to_string())
    );
    assert_eq!(
        parse_k8s_host("my.svcx.example"),
        ("my".to_string(), "svcx".to_string())
    );
}

#[test]
fn parse_empty_host() {
    assert_eq!(parse_k8s_host(""), (String::new(), "unknown".to_string()));
    assert_eq!(parse_k8s_host(":80"), (String::new(), "unknown".to_string()));
}
