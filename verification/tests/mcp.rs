use qubit::mcp::{
    dependencies_report, k8s_events_query, k8s_events_report, look_back, network_events_query,
    network_events_report, sanitize, EbpfRow, GetServiceDepsInput, K8sRow,
};
use qubit::reply::topology_reply;
use qubit::topology::{Flow, NodeData, NodeId, Topology};

#[test]
fn sanitize_strips_single_quotes() {
    assert_eq!(sanitize("o'neil' OR '1'='1"), "oneil OR 1=1");
    assert_eq!(sanitize("plain"), "plain");
}

#[test]
fn look_back_defaults_to_an_hour() {
    assert_eq!(look_back(None), 60);
    assert_eq!(look_back(Some(5)), 5);
}

#[test]
fn k8s_query_text() {
    assert_eq!(
        k8s_events_query("k8s_events", &Some("pr'od".to_string()), &None, 15),
        "SELECT event_time, resource_type, name, namespace, event_type, labels, resource_data FROM k8s_events WHERE event_time >= now() - INTERVAL 15 MINUTE AND namespace = 'prod' ORDER BY event_time DESC LIMIT 100"
    );
    assert_eq!(
        k8s_events_query("t", &None, &Some("HPA".to_string()), 60),
        "SELECT event_time, resource_type, name, namespace, event_type, labels, resource_data FROM t WHERE event_time >= now() - INTERVAL 60 MINUTE AND resource_type = 'HPA' ORDER BY event_time DESC LIMIT 100"
    );
}

#[test]
fn network_query_text() {
    assert_eq!(
        network_events_query("ebpf", &Some("a".to_string()), &Some("b".to_string()), 2),
        "SELECT timestamp_ns, src_service, src_namespace, dst_service, dst_namespace, src_port, dst_port, method, path, host FROM ebpf WHERE timestamp_ns >= (toUnixTimestamp(now()) - 120) * 1000000000 AND src_service = 'a' AND dst_service = 'b' ORDER BY timestamp_ns DESC LIMIT 100"
    );
}

fn k8s_row(data: &str) -> K8sRow {
    K8sRow {
        event_time: 1700000000,
        resource_type: "Deployment".to_string(),
        name: "api".to_string(),
        namespace: "prod".to_string(),
        event_type: "Applied".to_string(),
        labels: "{}".to_string(),
        resource_data: data.to_string(),
    }
}

#[test]
fn k8s_report_text() {
    assert_eq!(k8s_events_report(&vec![], 30), "No K8s events found in the last 30 minutes.");
    assert_eq!(
        k8s_events_report(&vec![k8s_row("{}"), k8s_row("{\"a\":1}"), k8s_row("")], 60),
        "K8s Events (last 60 min, 3 results):\n\n  [Applied] Deployment prod/api — 1700000000\n  [Applied] Deployment prod/api — 1700000000\n        data: {\"a\":1}\n  [Applied] Deployment prod/api — 1700000000\n"
    );
}

#[test]
fn network_report_text() {
    let row = EbpfRow {
        timestamp_ns: 1,
        src_service: "a".to_string(),
        src_namespace: "ns".to_string(),
        dst_service: "b".to_string(),
        dst_namespace: "ns2".to_string(),
        src_port: 5000,
        dst_port: 80,
        method: "GET".to_string(),
        path: "/x".to_string(),
        host: "b.ns2".to_string(),
    };
    assert_eq!(network_events_report(&vec![], 60), "No network events found in the last 60 minutes.");
    assert_eq!(
        network_events_report(&vec![row], 10),
        "Network Events (last 10 min, 1 results):\n\n  ns/a:5000 → ns2/b:80 | GET /x | host=b.ns2\n"
    );
}

fn node(svc: &str) -> NodeId {
    NodeId { application_name: svc.to_string(), namespace: "ns".to_string() }
}

#[test]
fn dependencies_text() {
    let mut t = Topology::new();
    t.add_node(node("a"), NodeData::default());
    t.add_node(node("b"), NodeData::default());
    t.add_flow(Flow {
        source_node: node("a"),
        destination_node: node("b"),
        path: "/x".to_string(),
        method: "GET".to_string(),
    });
    let reply = topology_reply(&t);
    let input = |s: &str| GetServiceDepsInput { service: s.to_string(), namespace: "ns".to_string() };
    assert_eq!(
        dependencies_report(&reply, &input("b")),
        "Dependencies for ns/b:\n\n  Upstream (callers):\n    ← ns/a (GET /x)\n\n  Downstream (dependencies):\n    (none)\n"
    );
    assert_eq!(
        dependencies_report(&reply, &input("a")),
        "Dependencies for ns/a:\n\n  Upstream (callers):\n    (none)\n\n  Downstream (dependencies):\n    → ns/b (GET /x)\n"
    );
    let missing = dependencies_report(&reply, &input("zz"));
    assert!(missing == "Service 'ns/zz' not found in topology. Known services: ns/a, ns/b"
        || missing == "Service 'ns/zz' not found in topology. Known services: ns/b, ns/a");
}
