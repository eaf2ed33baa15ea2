use qubit::subgraph::SubgraphResult;
use qubit::topology::{Flow, K8sEvent, NodeData, NodeId, Topology};

fn node(svc: &str, ns: &str) -> NodeId {
    NodeId {
        application_name: svc.to_string(),
        namespace: ns.to_string(),
    }
}

fn flow(src_svc: &str, src_ns: &str, dst_svc: &str, dst_ns: &str) -> Flow {
    Flow {
        source_node: node(src_svc, src_ns),
        destination_node: node(dst_svc, dst_ns),
        path: "/".to_string(),
        method: "GET".to_string(),
    }
}

fn flows_of<'a>(table: &'a Vec<(NodeId, Vec<Flow>)>, id: &NodeId) -> Option<&'a Vec<Flow>> {
    table.iter().find(|(k, _)| k == id).map(|(_, v)| v)
}

#[test]
fn add_node_is_idempotent() {
    let mut topo = Topology::new();
    let id = node("svc-a", "default");

    topo.add_node(
        id.clone(),
        NodeData {
            ip: "10.0.0.1".to_string(),
            ..Default::default()
        },
    );
    topo.add_node(
        id.clone(),
        NodeData {
            ip: "10.0.0.2".to_string(),
            ..Default::default()
        },
    );

    assert_eq!(topo.node_count(), 1);
    assert_eq!(topo.node(&id).unwrap().ip, "10.0.0.1");
}

#[test]
fn add_flow_populates_both_maps() {
    let mut topo = Topology::new();
    let a = node("svc-a", "default");
    let b = node("svc-b", "default");

    topo.add_flow(flow("svc-a", "default", "svc-b", "default"));

    assert_eq!(topo.downstream_of(&a).unwrap().len(), 1);
    assert_eq!(topo.upstream_of(&b).unwrap().len(), 1);
    assert_eq!(topo.downstream_of(&a).unwrap()[0].destination_node, b);
    assert_eq!(topo.upstream_of(&b).unwrap()[0].source_node, a);
}

#[test]
fn resolve_noop_when_no_stale_node() {
    let mut topo = Topology::new();
    topo.add_node(node("svc-a", "default"), NodeData::default());

    topo.resolve_unknown_node("10.0.0.99", "svc-b", "default");

    assert_eq!(topo.node_count(), 1);
    assert!(topo.contains_node(&node("svc-a", "default")));
}

#[test]
fn resolve_rewires_flows_in_other_nodes() {
    let mut topo = Topology::new();

    topo.add_node(
        node("svc-a", "default"),
        NodeData {
            ip: "10.0.0.1".to_string(),
            ..Default::default()
        },
    );
    topo.add_node(
        node("10.0.0.2", "unknown"),
        NodeData {
            ip: "10.0.0.2".to_string(),
            ..Default::default()
        },
    );
    topo.add_flow(flow("svc-a", "default", "10.0.0.2", "unknown"));

    topo.resolve_unknown_node("10.0.0.2", "svc-b", "default");

    let a = node("svc-a", "default");
    let b = node("svc-b", "default");

    assert!(!topo.contains_node(&node("10.0.0.2", "unknown")));
    assert!(topo.contains_node(&b));

    assert_eq!(topo.downstream_of(&a).unwrap()[0].destination_node, b);
    assert_eq!(topo.upstream_of(&b).unwrap()[0].source_node, a);
}

#[test]
fn resolve_merges_when_resolved_node_already_exists() {
    let mut topo = Topology::new();

    topo.add_node(
        node("svc-b", "default"),
        NodeData {
            ip: "10.0.0.2".to_string(),
            ..Default::default()
        },
    );
    topo.add_node(
        node("10.0.0.2", "unknown"),
        NodeData {
            ip: "10.0.0.2".to_string(),
            ..Default::default()
        },
    );
    topo.add_flow(flow("svc-a", "default", "10.0.0.2", "unknown"));

    topo.resolve_unknown_node("10.0.0.2", "svc-b", "default");

    assert!(!topo.contains_node(&node("10.0.0.2", "unknown")));
    assert!(topo.contains_node(&node("svc-b", "default")));
    assert_eq!(topo.node(&node("svc-b", "default")).unwrap().ip, "10.0.0.2");
}

fn make_graph() -> Topology {
    let mut topo = Topology::new();
    for svc in &["caller", "svc-a", "svc-b", "svc-c", "svc-d", "svc-e"] {
        topo.add_node(node(svc, "ns"), NodeData::default());
    }
    topo.add_flow(flow("caller", "ns", "svc-a", "ns"));
    topo.add_flow(flow("svc-a", "ns", "svc-b", "ns"));
    topo.add_flow(flow("svc-a", "ns", "svc-d", "ns"));
    topo.add_flow(flow("svc-b", "ns", "svc-c", "ns"));
    topo.add_flow(flow("svc-b", "ns", "svc-e", "ns"));
    topo
}

#[test]
fn subgraph_depth_1_includes_direct_callees_and_root_caller() {
    let topo = make_graph();
    let sg = topo.get_subgraph("svc-a", "ns", 1);

    assert!(sg.nodes.contains(&node("svc-a", "ns")));
    assert!(sg.nodes.contains(&node("svc-b", "ns")));
    assert!(sg.nodes.contains(&node("svc-d", "ns")));
    assert!(sg.nodes.contains(&node("caller", "ns")));
    assert!(!sg.nodes.contains(&node("svc-c", "ns")));
    assert!(!sg.nodes.contains(&node("svc-e", "ns")));
}

#[test]
fn subgraph_depth_2_reaches_level_2_nodes() {
    let topo = make_graph();
    let sg = topo.get_subgraph("svc-a", "ns", 2);

    for svc in &["svc-a", "svc-b", "svc-c", "svc-d", "svc-e", "caller"] {
        assert!(
            sg.nodes.contains(&node(svc, "ns")),
            "{} not in subgraph",
            svc
        );
    }
}

#[test]
fn subgraph_cross_edges_excluded_for_non_root() {
    let mut topo = make_graph();
    topo.add_flow(flow("svc-d", "ns", "svc-b", "ns"));

    let sg = topo.get_subgraph("svc-a", "ns", 1);

    assert!(sg.nodes.contains(&node("svc-d", "ns")));
    let svc_d_out = flows_of(&sg.downstream, &node("svc-d", "ns"));
    assert!(
        svc_d_out.is_none()
            || svc_d_out
                .unwrap()
                .iter()
                .all(|f| f.destination_node != node("svc-b", "ns")),
        "cross-edge svc-d→svc-b should be filtered"
    );
}

#[test]
fn subgraph_unknown_root_returns_empty() {
    let topo = make_graph();
    let sg = topo.get_subgraph("does-not-exist", "ns", 2);
    assert!(sg.nodes.is_empty());
}

// ── further cases ────────────────────────────────────────────────────────────

#[test]
fn add_flow_twice_lists_it_once() {
    let mut topo = Topology::new();
    topo.add_flow(flow("svc-a", "default", "svc-b", "default"));
    topo.add_flow(flow("svc-a", "default", "svc-b", "default"));
    let a = node("svc-a", "default");
    let b = node("svc-b", "default");
    assert_eq!(topo.downstream_of(&a).unwrap().len(), 1);
    assert_eq!(topo.upstream_of(&b).unwrap().len(), 1);
    assert_eq!(topo.node_count(), 0);
}

#[test]
fn k8s_event_attaches_to_existing_node_only() {
    let mut topo = Topology::new();
    topo.add_node(node("api", "prod"), NodeData::default());
    let event = |name: &str| K8sEvent {
        timestamp: 7,
        resource_name: name.to_string(),
        resource_type: "Deployment".to_string(),
        event_type: "Applied".to_string(),
        event_data: String::new(),
    };
    topo.add_k8s_event(node("api", "prod"), event("api"));
    topo.add_k8s_event(node("ghost", "prod"), event("ghost"));
    assert_eq!(topo.node(&node("api", "prod")).unwrap().k8s_events.len(), 1);
    assert_eq!(topo.node(&node("api", "prod")).unwrap().k8s_events[0].timestamp, 7);
    assert!(!topo.contains_node(&node("ghost", "prod")));
    assert_eq!(topo.node_count(), 1);
}

#[test]
fn resolve_moves_lists_keyed_by_the_stale_node() {
    let mut topo = Topology::new();
    topo.add_node(node("10.0.0.9", "unknown"), NodeData::with_ip("10.0.0.9"));
    topo.add_flow(flow("10.0.0.9", "unknown", "svc-c", "default"));
    topo.resolve_unknown_node("10.0.0.9", "svc-z", "default");
    let z = node("svc-z", "default");
    let c = node("svc-c", "default");
    assert!(topo.downstream_of(&node("10.0.0.9", "unknown")).is_none());
    assert_eq!(topo.downstream_of(&z).unwrap()[0].source_node, z);
    assert_eq!(topo.upstream_of(&c).unwrap()[0].source_node, z);
    assert_eq!(topo.node(&z).unwrap().ip, "10.0.0.9");
}

#[test]
fn subgraph_depth_0_is_root_and_its_callers() {
    let topo = make_graph();
    let sg: SubgraphResult = topo.get_subgraph("svc-a", "ns", 0);
    assert_eq!(sg.nodes.len(), 2);
    assert!(sg.nodes.contains(&node("svc-a", "ns")));
    assert!(sg.nodes.contains(&node("caller", "ns")));
}

#[test]
fn get_topology_is_the_graph_itself() {
    let topo = make_graph();
    assert_eq!(topo.get_topology().node_count(), 6);
}
