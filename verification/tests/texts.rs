use qubit::aggregator::{apply_service_pod_map, K8sAggregator, ServicePodEntry};
use qubit::mcp::topology_report;
use qubit::model::EbpfNetworkEvent;
use qubit::order::{sort_by_text, text_less};
use qubit::reply::topology_reply;
use qubit::sql::{
    alter_ebpf_ttl_sql, count_sql, create_ebpf_table_sql, create_k8s_table_sql, events_by_service_sql,
    events_in_range_sql, page_sql,
};
use qubit::topology::{Flow, NodeData, NodeId, Topology};

fn node(svc: &str, ns: &str) -> NodeId {
    NodeId { application_name: svc.to_string(), namespace: ns.to_string() }
}

fn flow(a: (&str, &str), b: (&str, &str), method: &str, path: &str) -> Flow {
    Flow {
        source_node: node(a.0, a.1),
        destination_node: node(b.0, b.1),
        path: path.to_string(),
        method: method.to_string(),
    }
}

#[test]
fn sql_statements() {
    assert_eq!(
        create_ebpf_table_sql("ev"),
        "CREATE TABLE IF NOT EXISTS ev (\n        timestamp_ns UInt64,\n        src_service String,\n        src_namespace String,\n        dst_service String,\n        dst_namespace String,\n        src_port UInt16,\n        dst_port UInt16,\n        method String,\n        path String,\n        host String\n    )\n            ENGINE = MergeTree()\n            ORDER BY (timestamp_ns, src_service, dst_service)\n            TTL toDateTime(intDiv(timestamp_ns, 1000000000)) + INTERVAL 7 DAY"
    );
    assert_eq!(
        alter_ebpf_ttl_sql("ev"),
        "ALTER TABLE ev MODIFY TTL toDateTime(intDiv(timestamp_ns, 1000000000)) + INTERVAL 7 DAY"
    );
    assert!(create_k8s_table_sql("k").ends_with("TTL event_time + INTERVAL 1 DAY"));
    assert_eq!(count_sql("k"), "SELECT count() AS c FROM k");
    assert_eq!(page_sql("k", "event_time", 2, 50), "SELECT * FROM k ORDER BY event_time DESC LIMIT 50 OFFSET 100");
    assert_eq!(events_by_service_sql("ev", "a"), "SELECT * FROM ev WHERE src_service = 'a'");
    assert_eq!(events_in_range_sql("ev", 1, 20), "SELECT * FROM ev WHERE timestamp_ns >= 1 AND timestamp_ns <= 20");
}

#[test]
fn text_order_is_by_character_code() {
    assert!(text_less("a", "b"));
    assert!(text_less("ab", "abc"));
    assert!(!text_less("abc", "ab"));
    assert!(!text_less("same", "same"));
    assert!(text_less("Z", "a"));
    assert!(text_less("é", "ü"));
    for (x, y) in [("a", "b"), ("b", "a"), ("ab", "a"), ("", "x"), ("é", "e"), ("x", "x")] {
        assert_eq!(text_less(x, y), x < y, "{} {}", x, y);
    }
}

#[test]
fn sorting_is_stable_and_complete() {
    let items = vec![
        ("b".to_string(), 0),
        ("a".to_string(), 1),
        ("c".to_string(), 2),
        ("a".to_string(), 3),
    ];
    let sorted = sort_by_text(items);
    assert_eq!(
        sorted,
        vec![("a".to_string(), 1), ("a".to_string(), 3), ("b".to_string(), 0), ("c".to_string(), 2)]
    );
    assert!(sort_by_text(Vec::new()).is_empty());
}

#[test]
fn display_texts() {
    let f = flow(("a", "ns"), ("b", "ns2"), "GET", "/x");
    assert_eq!(node("a", "ns").text(), "ns/a");
    assert_eq!(f.text(), "ns/a → ns2/b  GET /x");
    let mut t = Topology::new();
    t.add_node(node("a", "ns"), NodeData::default());
    t.add_flow(flow(("z", "ns"), ("a", "ns"), "POST", "/p"));
    t.add_flow(f);
    assert_eq!(
        t.text(),
        "Topology: 1 nodes, 2 edges\n  ns/a → ns2/b  GET /x\n  ns/z → ns/a  POST /p\n"
    );
    let event = EbpfNetworkEvent {
        timestamp_ns: 1,
        src_service: "a".into(),
        src_namespace: "ns".into(),
        dst_service: "b".into(),
        dst_namespace: "ns2".into(),
        src_port: 1234,
        dst_port: 80,
        method: "GET".into(),
        path: "/".into(),
        host: "b".into(),
    };
    assert_eq!(event.text(), "HTTP: ns/a:1234 --> ns2/b:80 | GET / | host=b");
}

#[test]
fn topology_report_is_sorted() {
    let mut t = Topology::new();
    assert_eq!(
        topology_report(&topology_reply(&t)),
        "No services discovered yet. The cluster may not have traffic flowing."
    );
    t.add_node(node("web", "shop"), NodeData::with_ip("10.0.0.7"));
    t.add_node(node("api", "shop"), NodeData::default());
    t.add_flow(flow(("web", "shop"), ("api", "shop"), "GET", "/items"));
    assert_eq!(
        topology_report(&topology_reply(&t)),
        "Service Topology (2 services):\n\n  shop/api\n\n  shop/web  (ip: 10.0.0.7)\n    → GET /items → shop/api\n"
    );
}

#[test]
fn pod_map_applies_every_pod() {
    let mut k8s = K8sAggregator::new();
    let mut t = Topology::new();
    t.add_node(node("10.0.0.1", "unknown"), NodeData::with_ip("10.0.0.1"));
    let entries = vec![
        ServicePodEntry {
            service_name: "web".into(),
            namespace: "shop".into(),
            service_type: "ClusterIP".into(),
            pod_ips: vec!["10.0.0.1".into(), "10.0.0.2".into()],
        },
        ServicePodEntry {
            service_name: "db".into(),
            namespace: "shop".into(),
            service_type: "ClusterIP".into(),
            pod_ips: vec![],
        },
    ];
    assert_eq!(apply_service_pod_map(&mut k8s, &mut t, &entries), "Applied 2 service entries");
    assert!(!t.contains_node(&node("10.0.0.1", "unknown")));
    assert!(t.contains_node(&node("web", "shop")));
}
