use std::collections::HashMap;

use qubit::aggregator::{apply_observation, EbpfAggregator, Ingest, K8sAggregator};
use qubit::caches::EnvoyDomainCache;
use qubit::model::EbpfNetworkEventInput;
use qubit::topology::{NodeData, NodeId, Topology};

fn node(svc: &str, ns: &str) -> NodeId {
    NodeId { application_name: svc.to_string(), namespace: ns.to_string() }
}

fn input(path: &str, host: &str) -> EbpfNetworkEventInput {
    EbpfNetworkEventInput {
        timestamp_ns: 42,
        src_ip: 0x0100_000a, // 10.0.0.1 in network byte order on a little-endian machine
        dst_ip: 0x0200_000a,
        src_port: 5000,
        dst_port: 80,
        method: "GET".to_string(),
        path: path.to_string(),
        host: host.to_string(),
    }
}

fn reply(r: &Ingest) -> Option<String> {
    match r {
        Ingest::Reply(s) => Some(s.clone()),
        Ingest::Observed { .. } => None,
    }
}

#[test]
fn health_checks_are_skipped() {
    let k8s = K8sAggregator::new();
    let envoy = EnvoyDomainCache::new();
    let mut agg = EbpfAggregator::new(10);
    let r = agg.record_resolved(k8s.pod_cache(), &envoy, input("/api/health", "x"), "10.0.0.1".into(), "10.0.0.2".into());
    assert_eq!(reply(&r), Some("Skipping health check event!".to_string()));
    assert!(agg.take_buffered().is_none());
}

#[test]
fn unknown_source_is_dropped() {
    let k8s = K8sAggregator::new();
    let envoy = EnvoyDomainCache::new();
    let mut agg = EbpfAggregator::new(10);
    let r = agg.record_resolved(k8s.pod_cache(), &envoy, input("/", "x"), "10.0.0.1".into(), "10.0.0.2".into());
    assert_eq!(reply(&r), Some("unresolved source — waiting for pod event".to_string()));
}

#[test]
fn source_with_empty_service_name_is_dropped() {
    let mut k8s = K8sAggregator::new();
    let mut topo = Topology::new();
    k8s.record_pod_applied(&mut topo, "10.0.0.1", "default", "", "ClusterIP");
    let envoy = EnvoyDomainCache::new();
    let mut agg = EbpfAggregator::new(10);
    let r = agg.record_resolved(k8s.pod_cache(), &envoy, input("/", "x"), "10.0.0.1".into(), "10.0.0.2".into());
    assert_eq!(reply(&r), Some("unresolved source — waiting for pod event".to_string()));
}

#[test]
fn destination_prefers_envoy_then_pod_then_host() {
    let mut k8s = K8sAggregator::new();
    let mut topo = Topology::new();
    k8s.record_pod_applied(&mut topo, "10.0.0.1", "default", "svc-a", "ClusterIP");
    k8s.record_pod_applied(&mut topo, "10.0.0.2", "shop", "svc-pod", "ClusterIP");
    let mut envoy = EnvoyDomainCache::new();
    envoy.insert("orders.example.int".into(), "orders".into(), "shop".into());
    let mut agg = EbpfAggregator::new(100);

    let dst = |r: Ingest| match r {
        Ingest::Observed { observation, .. } => observation.destination_node,
        Ingest::Reply(s) => panic!("unexpected reply {}", s),
    };
    let r = agg.record_resolved(k8s.pod_cache(), &envoy, input("/", "orders.example.int:8080"), "10.0.0.1".into(), "10.0.0.2".into());
    assert_eq!(dst(r), node("orders", "shop"));
    let r = agg.record_resolved(k8s.pod_cache(), &envoy, input("/", "unknown-name"), "10.0.0.1".into(), "10.0.0.2".into());
    assert_eq!(dst(r), node("svc-pod", "shop"));
    let r = agg.record_resolved(k8s.pod_cache(), &envoy, input("/", "svc-c.team.svc.cluster.local"), "10.0.0.1".into(), "10.0.0.9".into());
    assert_eq!(dst(r), node("svc-c", "team"));
}

#[test]
fn a_service_pair_is_stored_once_and_flushed_in_batches() {
    let mut k8s = K8sAggregator::new();
    let mut topo = Topology::new();
    k8s.record_pod_applied(&mut topo, "10.0.0.1", "default", "svc-a", "ClusterIP");
    let envoy = EnvoyDomainCache::new();
    let mut agg = EbpfAggregator::new(2);

    let first = agg.record_resolved(k8s.pod_cache(), &envoy, input("/", "svc-b"), "10.0.0.1".into(), "10.0.0.2".into());
    match first {
        Ingest::Observed { flush, observation } => {
            assert!(flush.is_none());
            assert!(observation.new_edge);
            assert_eq!(apply_observation(&mut topo, observation), "saved event!");
        }
        Ingest::Reply(s) => panic!("unexpected reply {}", s),
    }
    let again = agg.record_resolved(k8s.pod_cache(), &envoy, input("/", "svc-b"), "10.0.0.1".into(), "10.0.0.2".into());
    match again {
        Ingest::Observed { flush, observation } => {
            assert!(flush.is_none());
            assert!(!observation.new_edge);
            apply_observation(&mut topo, observation);
        }
        Ingest::Reply(s) => panic!("unexpected reply {}", s),
    }
    let a = node("svc-a", "default");
    let b = node("svc-b", "unknown");
    assert_eq!(topo.downstream_of(&a).unwrap().len(), 1);
    assert_eq!(topo.node(&a).unwrap().ip, "10.0.0.1");
    assert_eq!(topo.node(&b).unwrap().ip, "10.0.0.2");

    let second_pair = agg.record_resolved(k8s.pod_cache(), &envoy, input("/", "svc-c"), "10.0.0.1".into(), "10.0.0.3".into());
    match second_pair {
        Ingest::Observed { flush, .. } => {
            let batch = flush.expect("the second new pair fills the batch");
            assert_eq!(batch.len(), 2);
            assert_eq!(batch[0].src_service, "svc-a");
            assert_eq!(batch[0].dst_service, "svc-b");
            assert_eq!(batch[0].dst_namespace, "unknown");
            assert_eq!(batch[1].dst_service, "svc-c");
            assert_eq!(batch[1].host, "svc-c");
            assert_eq!(batch[1].timestamp_ns, 42);
        }
        Ingest::Reply(s) => panic!("unexpected reply {}", s),
    }
    assert!(agg.take_buffered().is_none());
}

#[test]
fn take_buffered_drains() {
    let mut k8s = K8sAggregator::new();
    let mut topo = Topology::new();
    k8s.record_pod_applied(&mut topo, "10.0.0.1", "default", "svc-a", "ClusterIP");
    let envoy = EnvoyDomainCache::new();
    let mut agg = EbpfAggregator::new(100);
    agg.record_resolved(k8s.pod_cache(), &envoy, input("/", "svc-b"), "10.0.0.1".into(), "10.0.0.2".into());
    let batch = agg.take_buffered().unwrap();
    assert_eq!(batch.len(), 1);
    assert!(agg.take_buffered().is_none());
}

#[test]
fn record_ebpf_event_reads_the_packet_addresses() {
    let mut k8s = K8sAggregator::new();
    let mut topo = Topology::new();
    k8s.record_pod_applied(&mut topo, "10.0.0.1", "default", "svc-a", "ClusterIP");
    k8s.record_pod_applied(&mut topo, "1.0.0.10", "default", "svc-a", "ClusterIP");
    let envoy = EnvoyDomainCache::new();
    let mut agg = EbpfAggregator::new(100);
    match agg.record_ebpf_event(k8s.pod_cache(), &envoy, input("/", "svc-b")) {
        Ingest::Observed { observation, .. } => {
            assert!(observation.src_ip == "10.0.0.1" || observation.src_ip == "1.0.0.10");
            assert!(observation.dst_ip == "10.0.0.2" || observation.dst_ip == "2.0.0.10");
        }
        Ingest::Reply(s) => panic!("unexpected reply {}", s),
    }
}

#[test]
fn pod_applied_resolves_stale_nodes() {
    let mut k8s = K8sAggregator::new();
    let mut topo = Topology::new();
    topo.add_node(node("10.0.0.5", "unknown"), NodeData::with_ip("10.0.0.5"));
    k8s.record_pod_applied(&mut topo, "10.0.0.5", "default", "", "");
    assert!(topo.contains_node(&node("10.0.0.5", "unknown")));
    k8s.record_pod_applied(&mut topo, "10.0.0.5", "default", "svc-x", "ClusterIP");
    assert!(!topo.contains_node(&node("10.0.0.5", "unknown")));
    assert!(topo.contains_node(&node("svc-x", "default")));
}

#[test]
fn pod_deleted_forgets_the_ip() {
    let mut k8s = K8sAggregator::new();
    let mut topo = Topology::new();
    k8s.record_pod_applied(&mut topo, "10.0.0.1", "default", "svc-a", "ClusterIP");
    k8s.record_pod_deleted("10.0.0.1");
    let envoy = EnvoyDomainCache::new();
    let mut agg = EbpfAggregator::new(10);
    let r = agg.record_resolved(k8s.pod_cache(), &envoy, input("/", "x"), "10.0.0.1".into(), "10.0.0.2".into());
    assert!(reply(&r).is_some());
}

#[test]
fn services_are_recorded_and_removed() {
    let mut k8s = K8sAggregator::new();
    k8s.record_service_applied("web", "shop", "ClusterIP", "10.96.0.10");
    k8s.record_service_deleted("web", "shop");
    k8s.record_service_deleted("never", "there");
}

#[test]
fn resource_events_attach_to_matching_nodes() {
    let k8s = K8sAggregator::new();
    let mut topo = Topology::new();
    topo.add_node(node("api", "prod"), NodeData::default());
    let mut labels = HashMap::new();
    labels.insert("app".to_string(), "api".to_string());
    let ev = k8s.record_k8s_resource_event(&mut topo, "Deployment", "api", "prod", "Applied", &labels, "{}", 4_294_967_301);
    assert_eq!(ev.event_time, 5);
    assert_eq!(ev.labels, "{\"app\":\"api\"}");
    assert_eq!(ev.resource_data, "{}");
    let data = topo.node(&node("api", "prod")).unwrap();
    assert_eq!(data.k8s_events.len(), 1);
    assert_eq!(data.k8s_events[0].timestamp, 4_294_967_301);
    assert_eq!(data.k8s_events[0].resource_type, "Deployment");

    let ev = k8s.record_k8s_resource_event(&mut topo, "Event", "other", "prod", "Deleted", &HashMap::new(), "", 10);
    assert_eq!(ev.labels, "{}");
    assert_eq!(topo.node_count(), 1);
}

#[test]
fn envoy_cache_lookup() {
    let mut envoy = EnvoyDomainCache::new();
    assert!(envoy.get("a.example").is_none());
    envoy.insert("a.example".into(), "svc".into(), "ns".into());
    envoy.insert("a.example".into(), "svc2".into(), "ns2".into());
    assert_eq!(envoy.get("a.example"), Some(("svc2".to_string(), "ns2".to_string())));
}
