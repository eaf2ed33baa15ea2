use qubit::query::{
    flow_list, k8s_events_window, network_events_window, node_key, subgraph_response,
    topology_response, PaginationParams, SubgraphParams,
};
use qubit::reply::{to_flow_list, topology_reply};
use qubit::topology::{Flow, NodeData, NodeId, Topology};

fn node(svc: &str, ns: &str) -> NodeId {
    NodeId { application_name: svc.to_string(), namespace: ns.to_string() }
}

fn flow(a: &str, b: &str) -> Flow {
    Flow {
        source_node: node(a, "ns"),
        destination_node: node(b, "ns"),
        path: "/p".to_string(),
        method: "POST".to_string(),
    }
}

fn graph() -> Topology {
    let mut t = Topology::new();
    t.add_node(node("a", "ns"), NodeData::with_ip("10.0.0.1"));
    t.add_node(node("b", "ns"), NodeData::with_ip("10.0.0.2"));
    t.add_node(node("c", "ns"), NodeData::with_ip("10.0.0.3"));
    t.add_flow(flow("a", "b"));
    t.add_flow(flow("b", "c"));
    t
}

#[test]
fn node_keys_are_namespace_slash_name() {
    assert_eq!(node_key(&node("svc", "prod")), "prod/svc");
}

#[test]
fn flow_lists_keep_order_and_fields() {
    let l = flow_list(&vec![flow("a", "b"), flow("b", "c")]);
    assert_eq!(l.flows.len(), 2);
    assert_eq!(l.flows[1].source_application, "b");
    assert_eq!(l.flows[1].destination_application, "c");
    assert_eq!(l.flows[1].method, "POST");
    assert_eq!(l.flows[1].path, "/p");
    let r = to_flow_list(&[flow("a", "b")]);
    assert_eq!(r.flows[0].source_namespace, "ns");
    assert_eq!(r.flows[0].destination_service, "b");
}

#[test]
fn whole_topology_response() {
    let t = graph();
    let r = topology_response(&t);
    assert_eq!(r.nodes.len(), 3);
    let (key, dto) = r.nodes.iter().find(|(k, _)| k == "ns/b").unwrap();
    assert_eq!(key, "ns/b");
    assert_eq!(dto.application_name, "b");
    assert_eq!(dto.ip, "10.0.0.2");
    assert_eq!(r.upstream.len(), 2);
    assert_eq!(r.downstream.len(), 2);
    let (_, down_b) = r.downstream.iter().find(|(k, _)| k == "ns/b").unwrap();
    assert_eq!(down_b.flows[0].destination_application, "c");
}

#[test]
fn subgraph_response_keeps_known_nodes() {
    let t = graph();
    let params = SubgraphParams { service: "a".to_string(), namespace: "ns".to_string(), depth: None };
    let r = subgraph_response(&t, &params);
    let mut keys: Vec<_> = r.nodes.iter().map(|(k, _)| k.clone()).collect();
    keys.sort();
    assert_eq!(keys, vec!["ns/a".to_string(), "ns/b".to_string()]);
    let deep = SubgraphParams { service: "a".to_string(), namespace: "ns".to_string(), depth: Some(999) };
    assert_eq!(subgraph_response(&t, &deep).nodes.len(), 3);
    let missing = SubgraphParams { service: "zz".to_string(), namespace: "ns".to_string(), depth: Some(2) };
    let r = subgraph_response(&t, &missing);
    assert!(r.nodes.is_empty() && r.upstream.is_empty() && r.downstream.is_empty());
}

#[test]
fn subgraph_response_skips_callers_without_node_data() {
    let mut t = graph();
    t.add_flow(flow("ghost", "a"));
    let params = SubgraphParams { service: "a".to_string(), namespace: "ns".to_string(), depth: Some(1) };
    let r = subgraph_response(&t, &params);
    assert!(r.nodes.iter().all(|(k, _)| k != "ns/ghost"));
    let (_, up_a) = r.upstream.iter().find(|(k, _)| k == "ns/a").unwrap();
    assert_eq!(up_a.flows.len(), 1);
}

#[test]
fn reply_mirrors_the_graph() {
    let t = graph();
    let r = topology_reply(&t);
    assert_eq!(r.nodes.len(), 3);
    let (_, n) = r.nodes.iter().find(|(k, _)| k == "ns/c").unwrap();
    assert_eq!(n.service_name, "c");
    assert_eq!(n.namespace, "ns");
    assert_eq!(n.ip, "10.0.0.3");
    let (_, up_c) = r.upstream.iter().find(|(k, _)| k == "ns/c").unwrap();
    assert_eq!(up_c.flows[0].source_service, "b");
}

#[test]
fn pagination_defaults_and_caps() {
    let none = PaginationParams { page: None, page_size: None };
    assert_eq!(k8s_events_window(&none), (0, 50));
    assert_eq!(network_events_window(&none), (0, 100));
    let big = PaginationParams { page: Some(3), page_size: Some(10_000) };
    assert_eq!(k8s_events_window(&big), (3, 200));
    assert_eq!(network_events_window(&big), (3, 500));
    let small = PaginationParams { page: Some(1), page_size: Some(7) };
    assert_eq!(k8s_events_window(&small), (1, 7));
}
