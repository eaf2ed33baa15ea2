use std::collections::HashMap;

use qubit::aggregator::K8sAggregator;
use qubit::dispatch::{
    event_type_name, send_config_map_event, send_k8s_resource_event, send_pod_event, send_service_event,
    IngestError, K8sEventType,
};
use qubit::topology::{NodeData, NodeId, Topology};

fn users() -> NodeId {
    NodeId { application_name: "users".to_string(), namespace: "prod".to_string() }
}

fn is_unknown(e: &IngestError) -> bool {
    match e {
        IngestError::InvalidArgument(m) => m == "unknown event type",
    }
}

#[test]
fn event_type_names() {
    assert_eq!(event_type_name(Some(K8sEventType::Applied)).unwrap(), "Applied");
    assert_eq!(event_type_name(Some(K8sEventType::Deleted)).unwrap(), "Deleted");
    assert!(is_unknown(&event_type_name(None).unwrap_err()));
}

#[test]
fn pod_applied_then_deleted() {
    let mut k8s = K8sAggregator::new();
    let mut topo = Topology::new();
    let r = send_pod_event(&mut k8s, &mut topo, Some(K8sEventType::Applied), "10.0.0.1", "prod", "users", "ClusterIP");
    assert_eq!(r.unwrap(), "ok");
    let info = k8s.pod_cache().get("10.0.0.1").expect("recorded");
    assert_eq!(info.service_name, "users");
    assert_eq!(info.namespace, "prod");
    let r = send_pod_event(&mut k8s, &mut topo, Some(K8sEventType::Deleted), "10.0.0.1", "", "", "");
    assert_eq!(r.unwrap(), "ok");
    assert!(k8s.pod_cache().get("10.0.0.1").is_none());
}

#[test]
fn pod_event_of_unknown_type_changes_nothing() {
    let mut k8s = K8sAggregator::new();
    let mut topo = Topology::new();
    let r = send_pod_event(&mut k8s, &mut topo, None, "10.0.0.1", "prod", "users", "ClusterIP");
    assert!(is_unknown(&r.unwrap_err()));
    assert!(k8s.pod_cache().get("10.0.0.1").is_none());
}

#[test]
fn service_events() {
    let mut k8s = K8sAggregator::new();
    assert_eq!(send_service_event(&mut k8s, Some(K8sEventType::Applied), "users", "prod", "ClusterIP", "10.96.0.1").unwrap(), "ok");
    assert_eq!(send_service_event(&mut k8s, Some(K8sEventType::Deleted), "users", "prod", "", "").unwrap(), "ok");
    assert!(is_unknown(&send_service_event(&mut k8s, None, "users", "prod", "", "").unwrap_err()));
}

#[test]
fn config_map_events_are_acknowledged() {
    assert_eq!(send_config_map_event(Some(K8sEventType::Applied)).unwrap(), "ok");
    assert_eq!(send_config_map_event(Some(K8sEventType::Deleted)).unwrap(), "ok");
    assert!(is_unknown(&send_config_map_event(None).unwrap_err()));
}

#[test]
fn resource_event_is_attached_under_its_type_name() {
    let k8s = K8sAggregator::new();
    let mut topo = Topology::new();
    topo.add_node(users(), NodeData::default());
    let id = users();
    let labels: HashMap<String, String> = HashMap::new();
    let e = match send_k8s_resource_event(&k8s, &mut topo, Some(K8sEventType::Deleted), "Deployment", "users", "prod", &labels, "{}", 1_700_000_000) {
        Ok(e) => e,
        Err(_) => panic!("a known type is accepted"),
    };
    assert_eq!(e.event_type, "Deleted");
    assert_eq!(e.labels, "{}");
    assert_eq!(e.resource_type, "Deployment");
    assert_eq!(e.event_time, 1_700_000_000);
    let events = &topo.node(&id).expect("node").k8s_events;
    assert_eq!(events.len(), 1);
    assert_eq!(events[0].event_type, "Deleted");
    match send_k8s_resource_event(&k8s, &mut topo, None, "Deployment", "users", "prod", &labels, "{}", 1) {
        Err(e) => assert!(is_unknown(&e)),
        Ok(_) => panic!("an unknown type is refused"),
    }
    assert_eq!(topo.node(&id).expect("node").k8s_events.len(), 1);
}
