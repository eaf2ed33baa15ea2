//! Ingestion of observed calls and Kubernetes events into the dependency
//! graph and the event store.
//!
//! The decisions are made here; the caller performs the storage writes that
//! a decision asks for and holds the shared state behind its locks.

use vstd::prelude::*;
use moka::sync::Cache;
use std::collections::HashMap;
use vstd::hash_set::StringHashSet;
use crate::caches::{
    new_pod_cache, new_service_cache, pod_cache_entries, pod_cache_get, pod_cache_insert,
    pod_cache_remove, pod_cache_unbounded, pod_info_view, service_cache_entries,
    service_cache_insert, service_cache_remove, service_cache_unbounded, EnvoyDomainCache,
    PodInfo, ServiceInfo,
};
use crate::host::{k8s_host, parse_k8s_host};
use crate::model::{
    events_view, raw_ip_text, EbpfNetworkEvent, EbpfNetworkEventInput, EbpfNetworkEventView,
    K8sResourceEvent,
};
use crate::text::{before_first, contains_text, has_infix, lemma_split_on_len, split_text};
use crate::topology::{
    spec_add_flow, spec_add_k8s_event, spec_add_node, spec_resolve, Flow, FlowView, K8sEvent,
    K8sEventView, NodeData, NodeDataView, NodeId, NodeKey, Topology, TopologyView,
};

verus! {

/// The identity `(service, namespace)` a pod IP resolves to, when the pod
/// cache knows the IP under a non-empty service name.
pub open spec fn resolved_pod(
    pods: Map<Seq<char>, (Seq<char>, Seq<char>, Seq<char>)>,
    ip: Seq<char>,
) -> Option<NodeKey> {
    if pods.contains_key(ip) && pods[ip].1.len() > 0 {
        Some((pods[ip].1, pods[ip].0))
    } else {
        None
    }
}

/// Where a call to `host` (port stripped) at `dst_ip` goes: the owner of
/// the domain if the domain table knows it, else the pod at `dst_ip`, else
/// what the host name itself says.
pub open spec fn destination(
    domains: Map<Seq<char>, (Seq<char>, Seq<char>)>,
    pods: Map<Seq<char>, (Seq<char>, Seq<char>, Seq<char>)>,
    host: Seq<char>,
    dst_ip: Seq<char>,
) -> NodeKey {
    if domains.contains_key(host) {
        domains[host]
    } else {
        match resolved_pod(pods, dst_ip) {
            Some(p) => p,
            None => k8s_host(host),
        }
    }
}

/// The dedup key of a service pair: `src_ns/src_svc -> dst_ns/dst_svc`.
pub open spec fn edge_key(src: NodeKey, dst: NodeKey) -> Seq<char> {
    src.1 + seq!['/'] + src.0 + seq![' ', '-', '>', ' '] + dst.1 + seq!['/'] + dst.0
}

/// What a call observed by the loader adds to the graph.
pub struct Observation {
    pub source_node: NodeId,
    pub destination_node: NodeId,
    pub src_ip: String,
    pub dst_ip: String,
    /// Whether the service pair was seen for the first time.
    pub new_edge: bool,
    pub path: String,
    pub method: String,
}

/// The mathematical content of an `Observation`.
pub struct ObservationView {
    pub source_node: NodeKey,
    pub destination_node: NodeKey,
    pub src_ip: Seq<char>,
    pub dst_ip: Seq<char>,
    pub new_edge: bool,
    pub path: Seq<char>,
    pub method: Seq<char>,
}

impl View for Observation {
    type V = ObservationView;

    open spec fn view(&self) -> ObservationView {
        ObservationView {
            source_node: self.source_node@,
            destination_node: self.destination_node@,
            src_ip: self.src_ip@,
            dst_ip: self.dst_ip@,
            new_edge: self.new_edge,
            path: self.path@,
            method: self.method@,
        }
    }
}

/// The outcome of ingesting one observed call: a reply with nothing more to
/// do, or the events to write to the store (if the buffer is full) and what
/// to add to the graph once they are written.
pub enum Ingest {
    Reply(String),
    Observed { flush: Option<Vec<EbpfNetworkEvent>>, observation: Observation },
}

/// The mathematical content of an `Ingest`.
pub enum IngestView {
    Reply(Seq<char>),
    Observed { flush: Option<Seq<EbpfNetworkEventView>>, observation: ObservationView },
}

impl View for Ingest {
    type V = IngestView;

    open spec fn view(&self) -> IngestView {
        match self {
            Ingest::Reply(s) => IngestView::Reply(s@),
            Ingest::Observed { flush, observation } => IngestView::Observed {
                flush: match flush {
                    Some(v) => Some(events_view(v@)),
                    None => None,
                },
                observation: observation@,
            },
        }
    }
}

/// The state of the call ingester.
pub struct EbpfAggregatorView {
    /// The service pairs already stored.
    pub seen: Set<Seq<char>>,
    /// The events not yet written to the store.
    pub buffer: Seq<EbpfNetworkEventView>,
    /// How many buffered events trigger a write.
    pub bulk_max: u64,
}

/// The stored form of a newly seen call.
pub open spec fn stored_event(input: EbpfNetworkEventInput, src: NodeKey, dst: NodeKey) -> EbpfNetworkEventView {
    EbpfNetworkEventView {
        timestamp_ns: input.timestamp_ns,
        src_service: src.0,
        src_namespace: src.1,
        dst_service: dst.0,
        dst_namespace: dst.1,
        src_port: input.src_port,
        dst_port: input.dst_port,
        method: input.method@,
        path: input.path@,
        host: input.host@,
    }
}

/// The ingester after one call and what it answers, for the given texts of
/// the source and destination addresses.
pub open spec fn ingest(
    a: EbpfAggregatorView,
    pods: Map<Seq<char>, (Seq<char>, Seq<char>, Seq<char>)>,
    domains: Map<Seq<char>, (Seq<char>, Seq<char>)>,
    input: EbpfNetworkEventInput,
    src_ip: Seq<char>,
    dst_ip: Seq<char>,
) -> (EbpfAggregatorView, IngestView) {
    if has_infix(input.path@, "/health"@) {
        (a, IngestView::Reply("Skipping health check event!"@))
    } else {
        match resolved_pod(pods, src_ip) {
            None => (a, IngestView::Reply("unresolved source — waiting for pod event"@)),
            Some(src) => {
                let dst = destination(domains, pods, before_first(input.host@, ':'), dst_ip);
                let key = edge_key(src, dst);
                let new_edge = !a.seen.contains(key);
                let observation = ObservationView {
                    source_node: src,
                    destination_node: dst,
                    src_ip,
                    dst_ip,
                    new_edge,
                    path: input.path@,
                    method: input.method@,
                };
                let seen = a.seen.insert(key);
                if new_edge {
                    let buffer = a.buffer.push(stored_event(input, src, dst));
                    if buffer.len() >= a.bulk_max {
                        (
                            EbpfAggregatorView { seen, buffer: Seq::empty(), ..a },
                            IngestView::Observed { flush: Some(buffer), observation },
                        )
                    } else {
                        (
                            EbpfAggregatorView { seen, buffer, ..a },
                            IngestView::Observed { flush: None, observation },
                        )
                    }
                } else {
                    (
                        EbpfAggregatorView { seen, ..a },
                        IngestView::Observed { flush: None, observation },
                    )
                }
            },
        }
    }
}

/// The graph after an observation: the flow once per new service pair, then
/// both endpoints as nodes carrying their IPs (existing nodes are kept).
pub open spec fn observe(t: TopologyView, o: ObservationView) -> TopologyView {
    let t1 = if o.new_edge {
        spec_add_flow(
            t,
            FlowView {
                source_node: o.source_node,
                destination_node: o.destination_node,
                path: o.path,
                method: o.method,
            },
        )
    } else {
        t
    };
    let t2 = spec_add_node(
        t1,
        o.source_node,
        NodeDataView { ip: o.src_ip, k8s_events: Seq::empty() },
    );
    spec_add_node(t2, o.destination_node, NodeDataView { ip: o.dst_ip, k8s_events: Seq::empty() })
}

/// Turns observed calls into stored events and graph updates.
pub struct EbpfAggregator {
    bulk_addition_data: Vec<EbpfNetworkEvent>,
    /// Dedup cache: tracks which service→service pairs we've already stored.
    /// Prevents duplicate DB rows for the same dependency edge.
    seen_edges: StringHashSet,
    ebpf_bulk_insertion_max_size: u64,
}

impl View for EbpfAggregator {
    type V = EbpfAggregatorView;

    closed spec fn view(&self) -> EbpfAggregatorView {
        EbpfAggregatorView {
            seen: self.seen_edges@,
            buffer: events_view(self.bulk_addition_data@),
            bulk_max: self.ebpf_bulk_insertion_max_size,
        }
    }
}

fn copy_text(s: &String) -> (r: String)
    ensures
        r@ == s@,
{
    s.clone()
}

impl EbpfAggregator {
    /// An ingester with nothing seen and nothing buffered, writing events in
    /// batches of `ebpf_bulk_insertion_max_size`.
    pub fn new(ebpf_bulk_insertion_max_size: u64) -> (r: Self)
        ensures
            r@.seen == Set::<Seq<char>>::empty(),
            r@.buffer == Seq::<EbpfNetworkEventView>::empty(),
            r@.bulk_max == ebpf_bulk_insertion_max_size,
    {
        let r = EbpfAggregator {
            bulk_addition_data: Vec::new(),
            seen_edges: StringHashSet::new(),
            ebpf_bulk_insertion_max_size,
        };
        assert(r@.buffer =~= Seq::<EbpfNetworkEventView>::empty());
        r
    }

    /// Ingests one observed call whose address texts are given. Health
    /// checks and calls from unknown pods are answered and dropped; other
    /// calls are resolved to a service pair, stored once per pair, and
    /// described for the graph.
    pub fn record_resolved(
        &mut self,
        pods: &Cache<String, PodInfo>,
        envoy: &EnvoyDomainCache,
        input: EbpfNetworkEventInput,
        src_ip: String,
        dst_ip: String,
    ) -> (r: Ingest)
        requires
            pod_cache_unbounded(*pods),
            envoy.wf(),
        ensures
            (final(self)@, r@) == ingest(
                old(self)@,
                pod_cache_entries(*pods),
                envoy.view(),
                input,
                src_ip@,
                dst_ip@,
            ),
    {
        let ghost a = self@;
        let ghost pv = pod_cache_entries(*pods);
        let ghost input_copy = input;
        if contains_text(input.path.as_str(), "/health") {
            return Ingest::Reply("Skipping health check event!".to_string());
        }
        let src = match pod_cache_get(pods, src_ip.as_str()) {
            Some(p) => {
                if p.service_name.as_str().is_empty() {
                    None
                } else {
                    Some(NodeId { application_name: p.service_name, namespace: p.namespace })
                }
            },
            None => None,
        };
        let source_node = match src {
            Some(n) => n,
            None => {
                return Ingest::Reply("unresolved source — waiting for pod event".to_string());
            },
        };
        let ghost src_key = source_node@;
        assert(resolved_pod(pv, src_ip@) == Some(src_key));
        let pieces = split_text(input.host.as_str(), ':');
        proof {
            lemma_split_on_len(input.host@, ':');
        }
        let host = pieces[0].as_str();
        assert(host@ == before_first(input.host@, ':'));
        let destination_node = match envoy.get(host) {
            Some((svc, ns)) => NodeId { application_name: svc, namespace: ns },
            None => {
                let by_pod = match pod_cache_get(pods, dst_ip.as_str()) {
                    Some(p) => {
                        if p.service_name.as_str().is_empty() {
                            None
                        } else {
                            Some(NodeId { application_name: p.service_name, namespace: p.namespace })
                        }
                    },
                    None => None,
                };
                match by_pod {
                    Some(n) => n,
                    None => {
                        let (svc, ns) = parse_k8s_host(host);
                        NodeId { application_name: svc, namespace: ns }
                    },
                }
            },
        };
        let ghost dst_key = destination_node@;
        assert(dst_key == destination(envoy.view(), pv, before_first(input.host@, ':'), dst_ip@));
        // Dedup: only persist one row per (src_service → dst_service) pair.
        let mut key = copy_text(&source_node.namespace);
        key.append("/");
        key.append(source_node.application_name.as_str());
        key.append(" -> ");
        key.append(destination_node.namespace.as_str());
        key.append("/");
        key.append(destination_node.application_name.as_str());
        proof {
            reveal_strlit("/");
            reveal_strlit(" -> ");
        }
        assert(key@ =~= edge_key(src_key, dst_key));
        let new_edge = self.seen_edges.insert(key);
        let mut flush: Option<Vec<EbpfNetworkEvent>> = None;
        if new_edge {
            let event = EbpfNetworkEvent {
                timestamp_ns: input.timestamp_ns,
                src_service: copy_text(&source_node.application_name),
                src_namespace: copy_text(&source_node.namespace),
                dst_service: copy_text(&destination_node.application_name),
                dst_namespace: copy_text(&destination_node.namespace),
                src_port: input.src_port,
                dst_port: input.dst_port,
                method: copy_text(&input.method),
                path: copy_text(&input.path),
                host: copy_text(&input.host),
            };
            let ghost ev = event@;
            assert(ev == stored_event(input_copy, src_key, dst_key));
            let ghost before = self.bulk_addition_data@;
            self.bulk_addition_data.push(event);
            assert(events_view(self.bulk_addition_data@) =~= events_view(before).push(ev));
            if self.bulk_addition_data.len() as u64 >= self.ebpf_bulk_insertion_max_size {
                let mut batch: Vec<EbpfNetworkEvent> = Vec::new();
                std::mem::swap(&mut batch, &mut self.bulk_addition_data);
                assert(events_view(self.bulk_addition_data@) =~= Seq::<EbpfNetworkEventView>::empty());
                flush = Some(batch);
            }
        }
        let observation = Observation {
            source_node,
            destination_node,
            src_ip,
            dst_ip,
            new_edge,
            path: input.path,
            method: input.method,
        };
        Ingest::Observed { flush, observation }
    }

    /// Ingests one observed call: reads its two addresses as text and
    /// proceeds as `record_resolved`.
    pub fn record_ebpf_event(
        &mut self,
        pods: &Cache<String, PodInfo>,
        envoy: &EnvoyDomainCache,
        input: EbpfNetworkEventInput,
    ) -> (r: Ingest)
        requires
            pod_cache_unbounded(*pods),
            envoy.wf(),
        ensures
            exists|src_ip: Seq<char>, dst_ip: Seq<char>|
                raw_ip_text(input.src_ip, src_ip) && raw_ip_text(input.dst_ip, dst_ip)
                    && (final(self)@, r@) == #[trigger] ingest(
                    old(self)@,
                    pod_cache_entries(*pods),
                    envoy.view(),
                    input,
                    src_ip,
                    dst_ip,
                ),
    {
        let src_ip = input.src_ip_str();
        let dst_ip = input.dst_ip_str();
        let ghost (s, d) = (src_ip@, dst_ip@);
        let ghost i = input;
        let r = self.record_resolved(pods, envoy, input, src_ip, dst_ip);
        assert(raw_ip_text(i.src_ip, s) && raw_ip_text(i.dst_ip, d));
        r
    }

    /// Takes every buffered event, for a periodic write; `None` when the
    /// buffer is empty.
    pub fn take_buffered(&mut self) -> (r: Option<Vec<EbpfNetworkEvent>>)
        ensures
            final(self)@.seen == old(self)@.seen,
            final(self)@.bulk_max == old(self)@.bulk_max,
            final(self)@.buffer == Seq::<EbpfNetworkEventView>::empty(),
            match r {
                None => old(self)@.buffer.len() == 0,
                Some(v) => old(self)@.buffer.len() > 0 && events_view(v@) == old(self)@.buffer,
            },
    {
        if self.bulk_addition_data.len() == 0 {
            assert(events_view(self.bulk_addition_data@) =~= Seq::<EbpfNetworkEventView>::empty());
            return None;
        }
        let mut batch: Vec<EbpfNetworkEvent> = Vec::new();
        std::mem::swap(&mut batch, &mut self.bulk_addition_data);
        assert(events_view(self.bulk_addition_data@) =~= Seq::<EbpfNetworkEventView>::empty());
        Some(batch)
    }
}

/// Adds an observation to the graph: the flow when the service pair is new,
/// then both endpoints as nodes with their IPs.
pub fn apply_observation(topology: &mut Topology, observation: Observation) -> (r: String)
    requires
        old(topology).wf(),
    ensures
        final(topology).wf(),
        final(topology)@ == observe(old(topology)@, observation@),
        r@ == "saved event!"@,
{
    let ghost o = observation@;
    let Observation { source_node, destination_node, src_ip, dst_ip, new_edge, path, method } =
        observation;
    if new_edge {
        let flow = Flow {
            source_node: source_node.clone(),
            destination_node: destination_node.clone(),
            path,
            method,
        };
        topology.add_flow(flow);
    }
    topology.add_node(source_node, NodeData::with_ip(src_ip.as_str()));
    topology.add_node(destination_node, NodeData::with_ip(dst_ip.as_str()));
    "saved event!".to_string()
}

/// Serialises a label map with `serde_json::to_string`, empty on failure.
/// An empty map gives `{}`; a non-empty one gives a JSON object, which
/// starts with `{` and ends with `}`. The text between is not stated: its
/// pair order follows the order in which the hash map is walked.
#[verifier::external_body]
fn labels_json(labels: &HashMap<String, String>) -> (r: String)
    ensures
        labels@.is_empty() ==> r@ == "{}"@,
        !labels@.is_empty() ==> r@.len() >= 2 && r@[0] == '{' && r@.last() == '}',
{
    serde_json::to_string(labels).unwrap_or_default()
}

/// Keeps the pod and service caches up to date and attaches Kubernetes
/// events to the graph.
pub struct K8sAggregator {
    pod_cache: Cache<String, PodInfo>,
    service_cache: Cache<String, ServiceInfo>,
}

impl K8sAggregator {
    /// The pod cache: IP → (namespace, service name, service type).
    pub closed spec fn pods(&self) -> Map<Seq<char>, (Seq<char>, Seq<char>, Seq<char>)> {
        pod_cache_entries(self.pod_cache)
    }

    /// The service cache: `namespace/name` → (namespace, type, cluster IP).
    pub closed spec fn services(&self) -> Map<Seq<char>, (Seq<char>, Seq<char>, Seq<char>)> {
        service_cache_entries(self.service_cache)
    }

    /// Both caches keep every entry until it is removed.
    pub closed spec fn wf(&self) -> bool {
        pod_cache_unbounded(self.pod_cache) && service_cache_unbounded(self.service_cache)
    }

    /// Empty caches.
    pub fn new() -> (r: Self)
        ensures
            r.wf(),
            r.pods().dom() == Set::<Seq<char>>::empty(),
            r.services().dom() == Set::<Seq<char>>::empty(),
    {
        K8sAggregator { pod_cache: new_pod_cache(), service_cache: new_service_cache() }
    }

    /// The pod cache, for the call ingester.
    pub fn pod_cache(&self) -> (r: &Cache<String, PodInfo>)
        requires
            self.wf(),
        ensures
            pod_cache_unbounded(*r),
            pod_cache_entries(*r) == self.pods(),
    {
        &self.pod_cache
    }

    /// Records which service a pod IP belongs to. If the service name is
    /// known, any stale graph node created under the raw IP is resolved.
    pub fn record_pod_applied(
        &mut self,
        topology: &mut Topology,
        pod_ip: &str,
        namespace: &str,
        service_name: &str,
        service_type: &str,
    )
        requires
            old(self).wf(),
            old(topology).wf(),
        ensures
            final(self).wf(),
            final(topology).wf(),
            final(self).pods() == old(self).pods().insert(
                pod_ip@,
                (namespace@, service_name@, service_type@),
            ),
            final(self).services() == old(self).services(),
            final(topology)@ == (if service_name@.len() > 0 {
                spec_resolve(old(topology)@, pod_ip@, service_name@, namespace@)
            } else {
                old(topology)@
            }),
    {
        let info = PodInfo {
            namespace: namespace.to_string(),
            service_name: service_name.to_string(),
            service_type: service_type.to_string(),
        };
        assert(pod_info_view(info) == (namespace@, service_name@, service_type@));
        pod_cache_insert(&mut self.pod_cache, pod_ip.to_string(), info);
        // If we now know the real service name, fix any stale topology nodes
        // that were created with the raw IP before this mapping existed.
        if !service_name.is_empty() {
            topology.resolve_unknown_node(pod_ip, service_name, namespace);
        }
    }

    /// Forgets a pod IP.
    pub fn record_pod_deleted(&mut self, pod_ip: &str)
        requires
            old(self).wf(),
        ensures
            final(self).wf(),
            final(self).pods() == old(self).pods().remove(pod_ip@),
            final(self).services() == old(self).services(),
    {
        pod_cache_remove(&mut self.pod_cache, pod_ip);
    }

    /// Records a service under `namespace/name`.
    pub fn record_service_applied(&mut self, name: &str, namespace: &str, service_type: &str, cluster_ip: &str)
        requires
            old(self).wf(),
        ensures
            final(self).wf(),
            final(self).services() == old(self).services().insert(
                namespace@ + seq!['/'] + name@,
                (namespace@, service_type@, cluster_ip@),
            ),
            final(self).pods() == old(self).pods(),
    {
        proof {
            reveal_strlit("/");
        }
        let mut key = namespace.to_string();
        key.append("/");
        key.append(name);
        assert(key@ =~= namespace@ + seq!['/'] + name@);
        let info = ServiceInfo {
            namespace: namespace.to_string(),
            service_type: service_type.to_string(),
            cluster_ip: cluster_ip.to_string(),
        };
        service_cache_insert(&mut self.service_cache, key, info);
    }

    /// Forgets the service `namespace/name`.
    pub fn record_service_deleted(&mut self, name: &str, namespace: &str)
        requires
            old(self).wf(),
        ensures
            final(self).wf(),
            final(self).services() == old(self).services().remove(namespace@ + seq!['/'] + name@),
            final(self).pods() == old(self).pods(),
    {
        proof {
            reveal_strlit("/");
        }
        let mut key = namespace.to_string();
        key.append("/");
        key.append(name);
        assert(key@ =~= namespace@ + seq!['/'] + name@);
        service_cache_remove(&mut self.service_cache, key.as_str());
    }

    /// Attaches a generic K8s resource event, seen at `now` (epoch seconds),
    /// to the graph node `(name, namespace)` if it exists, and returns the
    /// event to persist (with a 1-day TTL in the store).
    pub fn record_k8s_resource_event(
        &self,
        topology: &mut Topology,
        resource_type: &str,
        name: &str,
        namespace: &str,
        event_type: &str,
        labels: &HashMap<String, String>,
        resource_data: &str,
        now: u64,
    ) -> (r: K8sResourceEvent)
        requires
            old(topology).wf(),
        ensures
            final(topology).wf(),
            final(topology)@ == spec_add_k8s_event(
                old(topology)@,
                (name@, namespace@),
                K8sEventView {
                    timestamp: now,
                    resource_name: name@,
                    resource_type: resource_type@,
                    event_type: event_type@,
                    event_data: resource_data@,
                },
            ),
            r.event_time == now as u32,
            r.resource_type@ == resource_type@,
            r.name@ == name@,
            r.namespace@ == namespace@,
            r.event_type@ == event_type@,
            r.resource_data@ == resource_data@,
            labels@.is_empty() ==> r.labels@ == "{}"@,
            !labels@.is_empty() ==> r.labels@.len() >= 2 && r.labels@[0] == '{' && r.labels@.last() == '}',
    {
        let db_event = K8sResourceEvent {
            event_time: now as u32,
            resource_type: resource_type.to_string(),
            name: name.to_string(),
            namespace: namespace.to_string(),
            event_type: event_type.to_string(),
            labels: labels_json(labels),
            resource_data: resource_data.to_string(),
        };
        let topo_event = K8sEvent {
            timestamp: now,
            resource_name: name.to_string(),
            resource_type: resource_type.to_string(),
            event_type: event_type.to_string(),
            event_data: resource_data.to_string(),
        };
        let node_id = NodeId { application_name: name.to_string(), namespace: namespace.to_string() };
        topology.add_k8s_event(node_id, topo_event);
        db_event
    }
}

/// A service pair is stored once: ingesting the same call again, with the
/// same caches, buffers nothing more, writes nothing and marks the flow as
/// not new.
pub proof fn lemma_ingest_dedup(
    a: EbpfAggregatorView,
    pods: Map<Seq<char>, (Seq<char>, Seq<char>, Seq<char>)>,
    domains: Map<Seq<char>, (Seq<char>, Seq<char>)>,
    input: EbpfNetworkEventInput,
    src_ip: Seq<char>,
    dst_ip: Seq<char>,
)
    ensures
        ({
            let (a1, r1) = ingest(a, pods, domains, input, src_ip, dst_ip);
            let (a2, r2) = ingest(a1, pods, domains, input, src_ip, dst_ip);
            &&& a2 == a1
            &&& match r2 {
                IngestView::Reply(m) => r1 == r2,
                IngestView::Observed { flush, observation } => flush is None && !observation.new_edge
                    && r1 is Observed && observation == (ObservationView {
                    new_edge: false,
                    ..r1->observation
                }),
            }
        }),
{
    let (a1, r1) = ingest(a, pods, domains, input, src_ip, dst_ip);
    if !has_infix(input.path@, "/health"@) {
        if let Some(src) = resolved_pod(pods, src_ip) {
            let dst = destination(domains, pods, before_first(input.host@, ':'), dst_ip);
            let key = edge_key(src, dst);
            assert(a1.seen.contains(key));
            assert(a1.seen.insert(key) =~= a1.seen);
        }
    }
}

/// One call to the ingester: the caches it reads, the call, and the texts
/// of its two addresses.
pub struct IngestCall {
    pub pods: Map<Seq<char>, (Seq<char>, Seq<char>, Seq<char>)>,
    pub domains: Map<Seq<char>, (Seq<char>, Seq<char>)>,
    pub input: EbpfNetworkEventInput,
    pub src_ip: Seq<char>,
    pub dst_ip: Seq<char>,
}

/// The ingester after a run of calls, and what each call answered.
pub open spec fn ingest_run(a: EbpfAggregatorView, calls: Seq<IngestCall>) -> (EbpfAggregatorView, Seq<IngestView>)
    decreases calls.len(),
{
    if calls.len() == 0 {
        (a, Seq::empty())
    } else {
        let (a1, rs) = ingest_run(a, calls.drop_last());
        let c = calls.last();
        let (a2, r) = ingest(a1, c.pods, c.domains, c.input, c.src_ip, c.dst_ip);
        (a2, rs.push(r))
    }
}

/// The service pair of an answer that describes an observed call.
pub open spec fn answer_key(r: IngestView) -> Seq<char> {
    edge_key(r->observation.source_node, r->observation.destination_node)
}

/// Over any run of calls, with caches that may change from call to call, a
/// call's service pair is stored, and its flow added to the graph, exactly
/// when the pair was neither seen before the run nor observed by an earlier
/// call of the run: each service pair is stored once, by the first call
/// that observes it. A call whose pair was seen buffers nothing and writes
/// nothing. Afterwards the seen pairs are those seen before and those the
/// run observed.
pub proof fn lemma_ingest_run_dedup(a: EbpfAggregatorView, calls: Seq<IngestCall>)
    ensures
        ({
            let (a_n, rs) = ingest_run(a, calls);
            &&& rs.len() == calls.len()
            &&& forall|i: int| 0 <= i < rs.len() && #[trigger] rs[i] is Observed ==> (rs[i]->observation.new_edge
                <==> !a.seen.contains(answer_key(rs[i])) && forall|j: int| 0 <= j < i && rs[j] is Observed
                ==> answer_key(rs[j]) != answer_key(rs[i]))
            &&& forall|i: int| 0 <= i < rs.len() && #[trigger] rs[i] is Observed && !rs[i]->observation.new_edge
                ==> rs[i]->flush is None
            &&& forall|k: Seq<char>| #[trigger] a_n.seen.contains(k) <==> a.seen.contains(k) || exists|j: int|
                0 <= j < rs.len() && #[trigger] rs[j] is Observed && answer_key(rs[j]) == k
        }),
    decreases calls.len(),
{
    if calls.len() > 0 {
        let init = calls.drop_last();
        lemma_ingest_run_dedup(a, init);
        let (a1, rs) = ingest_run(a, init);
        let c = calls.last();
        let (a2, r) = ingest(a1, c.pods, c.domains, c.input, c.src_ip, c.dst_ip);
        let rs2 = rs.push(r);
        assert(ingest_run(a, calls) == (a2, rs2));
        let n = rs.len() as int;
        assert(rs2[n] == r);
        assert forall|i: int| 0 <= i < n implies #[trigger] rs2[i] == rs[i] by {}
        if r is Observed {
            let key = answer_key(r);
            assert(r->observation.new_edge == !a1.seen.contains(key));
            assert(a2.seen == a1.seen.insert(key));
            assert(!r->observation.new_edge ==> r->flush is None);
            assert(a1.seen.contains(key) <==> a.seen.contains(key) || exists|j: int|
                0 <= j < rs.len() && #[trigger] rs[j] is Observed && answer_key(rs[j]) == key);
            assert(r->observation.new_edge <==> !a.seen.contains(key) && forall|j: int| 0 <= j < n && rs2[j] is Observed
                ==> answer_key(rs2[j]) != key) by {
                if !r->observation.new_edge && !a.seen.contains(key) {
                    let j = choose|j: int| 0 <= j < rs.len() && #[trigger] rs[j] is Observed && answer_key(rs[j]) == key;
                    assert(rs2[j] == rs[j]);
                }
            }
            assert forall|k: Seq<char>| #[trigger] a2.seen.contains(k) <==> a.seen.contains(k) || exists|j: int|
                0 <= j < rs2.len() && #[trigger] rs2[j] is Observed && answer_key(rs2[j]) == k by {
                if a2.seen.contains(k) && !a.seen.contains(k) {
                    if k == key {
                        assert(rs2[n] is Observed && answer_key(rs2[n]) == k);
                    } else {
                        let j = choose|j: int| 0 <= j < rs.len() && #[trigger] rs[j] is Observed && answer_key(rs[j]) == k;
                        assert(rs2[j] == rs[j]);
                    }
                }
                if exists|j: int| 0 <= j < rs2.len() && #[trigger] rs2[j] is Observed && answer_key(rs2[j]) == k {
                    let j = choose|j: int| 0 <= j < rs2.len() && #[trigger] rs2[j] is Observed && answer_key(rs2[j]) == k;
                    if j < n {
                        assert(rs[j] == rs2[j]);
                    }
                }
            }
        } else {
            assert(a2 == a1);
            assert forall|k: Seq<char>| #[trigger] a2.seen.contains(k) <==> a.seen.contains(k) || exists|j: int|
                0 <= j < rs2.len() && #[trigger] rs2[j] is Observed && answer_key(rs2[j]) == k by {
                if a1.seen.contains(k) && !a.seen.contains(k) {
                    let j = choose|j: int| 0 <= j < rs.len() && #[trigger] rs[j] is Observed && answer_key(rs[j]) == k;
                    assert(rs2[j] == rs[j]);
                }
                if exists|j: int| 0 <= j < rs2.len() && #[trigger] rs2[j] is Observed && answer_key(rs2[j]) == k {
                    let j = choose|j: int| 0 <= j < rs2.len() && #[trigger] rs2[j] is Observed && answer_key(rs2[j]) == k;
                    assert(rs[j] == rs2[j]);
                }
            }
        }
        assert forall|i: int| 0 <= i < rs2.len() && #[trigger] rs2[i] is Observed implies (rs2[i]->observation.new_edge
            <==> !a.seen.contains(answer_key(rs2[i])) && forall|j: int| 0 <= j < i && rs2[j] is Observed
            ==> answer_key(rs2[j]) != answer_key(rs2[i])) by {
            if i < n {
                assert(rs2[i] == rs[i]);
                assert(rs[i] is Observed);
                assert forall|j: int| 0 <= j < i implies #[trigger] rs2[j] == rs[j] by {}
                assert((rs[i]->observation.new_edge <==> !a.seen.contains(answer_key(rs[i])) && forall|j: int|
                    0 <= j < i && rs[j] is Observed ==> answer_key(rs[j]) != answer_key(rs[i])));
                if forall|j: int| 0 <= j < i && rs[j] is Observed ==> answer_key(rs[j]) != answer_key(rs[i]) {
                    assert forall|j: int| 0 <= j < i && rs2[j] is Observed implies answer_key(rs2[j]) != answer_key(rs2[i]) by {
                        assert(rs2[j] == rs[j]);
                        assert(0 <= j < i && rs[j] is Observed);
                    }
                }
                if forall|j: int| 0 <= j < i && rs2[j] is Observed ==> answer_key(rs2[j]) != answer_key(rs2[i]) {
                    assert forall|j: int| 0 <= j < i && rs[j] is Observed implies answer_key(rs[j]) != answer_key(rs[i]) by {
                        assert(rs2[j] == rs[j]);
                        assert(0 <= j < i && rs2[j] is Observed);
                    }
                }
            } else {
                assert(rs2[i] == r);
                assert(r->observation.new_edge <==> !a.seen.contains(answer_key(r)) && forall|j: int| 0 <= j < n && rs2[j] is Observed
                    ==> answer_key(rs2[j]) != answer_key(r));
            }
        }
        assert forall|i: int| 0 <= i < rs2.len() && #[trigger] rs2[i] is Observed && !rs2[i]->observation.new_edge
            implies rs2[i]->flush is None by {
            if i < n {
                assert(rs2[i] == rs[i]);
            }
        }
    }
}

/// Ingesting keeps the buffer below the batch size: after any call it holds
/// fewer than `bulk_max` events if it did before (and stays empty when the
/// batch size is zero).
pub proof fn lemma_ingest_buffer_bounded(
    a: EbpfAggregatorView,
    pods: Map<Seq<char>, (Seq<char>, Seq<char>, Seq<char>)>,
    domains: Map<Seq<char>, (Seq<char>, Seq<char>)>,
    input: EbpfNetworkEventInput,
    src_ip: Seq<char>,
    dst_ip: Seq<char>,
)
    requires
        a.buffer.len() < a.bulk_max || a.buffer.len() == 0,
    ensures
        ({
            let a1 = ingest(a, pods, domains, input, src_ip, dst_ip).0;
            a1.buffer.len() < a1.bulk_max || a1.buffer.len() == 0
        }),
        ingest(a, pods, domains, input, src_ip, dst_ip).0.bulk_max == a.bulk_max,
{
}

/// Adding the same observation again leaves the graph as adding it once;
/// the second may carry the flow only if the first did.
pub proof fn lemma_observe_idempotent(t: TopologyView, o: ObservationView, again: bool)
    requires
        again ==> o.new_edge,
    ensures
        observe(observe(t, o), ObservationView { new_edge: again, ..o }) == observe(t, o),
{
    let f = FlowView {
        source_node: o.source_node,
        destination_node: o.destination_node,
        path: o.path,
        method: o.method,
    };
    let t1 = observe(t, o);
    if again {
        crate::laws::lemma_add_flow_lists(t, f);
        crate::laws::lemma_add_flow_idempotent(t, f);
        let u = spec_add_flow(t1, f);
        assert(t1.upstream == spec_add_flow(t, f).upstream);
        assert(t1.downstream == spec_add_flow(t, f).downstream);
        assert(u.upstream =~= t1.upstream);
        assert(u.downstream =~= t1.downstream);
        assert(u == t1);
    }
}

/// One service's pods, as the cluster agent reports them.
pub struct ServicePodEntry {
    pub service_name: String,
    pub namespace: String,
    pub service_type: String,
    pub pod_ips: Vec<String>,
}

/// A pod record: (IP, namespace, service name, service type).
pub type PodRecord = (Seq<char>, Seq<char>, Seq<char>, Seq<char>);

/// The pod records of one entry, one per IP.
pub open spec fn entry_records(e: ServicePodEntry) -> Seq<PodRecord> {
    e.pod_ips@.map_values(|ip: String| (ip@, e.namespace@, e.service_name@, e.service_type@))
}

/// The pod records of many entries, in order.
pub open spec fn map_records(entries: Seq<ServicePodEntry>) -> Seq<PodRecord>
    decreases entries.len(),
{
    if entries.len() == 0 {
        Seq::empty()
    } else {
        map_records(entries.drop_last()) + entry_records(entries.last())
    }
}

/// The pod cache after recording pods one by one.
pub open spec fn pods_after(
    pods: Map<Seq<char>, (Seq<char>, Seq<char>, Seq<char>)>,
    records: Seq<PodRecord>,
) -> Map<Seq<char>, (Seq<char>, Seq<char>, Seq<char>)>
    decreases records.len(),
{
    if records.len() == 0 {
        pods
    } else {
        let r = records.last();
        pods_after(pods, records.drop_last()).insert(r.0, (r.1, r.2, r.3))
    }
}

/// The graph after recording pods one by one: each pod with a service
/// name resolves the node recorded under its IP.
pub open spec fn graph_after(t: TopologyView, records: Seq<PodRecord>) -> TopologyView
    decreases records.len(),
{
    if records.len() == 0 {
        t
    } else {
        let r = records.last();
        let t1 = graph_after(t, records.drop_last());
        if r.2.len() > 0 {
            spec_resolve(t1, r.0, r.2, r.1)
        } else {
            t1
        }
    }
}

/// Records every pod of a full pod-service map, as `record_pod_applied`
/// does one pod at a time, and answers how many service entries it applied.
pub fn apply_service_pod_map(
    k8s: &mut K8sAggregator,
    topology: &mut Topology,
    entries: &Vec<ServicePodEntry>,
) -> (r: String)
    requires
        old(k8s).wf(),
        old(topology).wf(),
    ensures
        final(k8s).wf(),
        final(topology).wf(),
        final(k8s).pods() == pods_after(old(k8s).pods(), map_records(entries@)),
        final(k8s).services() == old(k8s).services(),
        final(topology)@ == graph_after(old(topology)@, map_records(entries@)),
        r@ == "Applied "@ + crate::text::decimal_digits(entries@.len()) + " service entries"@,
{
    let ghost pods0 = k8s.pods();
    let ghost services0 = k8s.services();
    let ghost t0 = topology@;
    let mut i: usize = 0;
    while i < entries.len()
        invariant
            i <= entries@.len(),
            k8s.wf(),
            topology.wf(),
            k8s.services() == services0,
            k8s.pods() == pods_after(pods0, map_records(entries@.take(i as int))),
            topology@ == graph_after(t0, map_records(entries@.take(i as int))),
        decreases entries@.len() - i,
    {
        let entry = &entries[i];
        let ghost done = map_records(entries@.take(i as int));
        proof {
            assert(entries@.take(i + 1).drop_last() =~= entries@.take(i as int));
        }
        let mut k: usize = 0;
        while k < entry.pod_ips.len()
            invariant
                k <= entry.pod_ips@.len(),
                k8s.wf(),
                topology.wf(),
                k8s.services() == services0,
                done == map_records(entries@.take(i as int)),
                k8s.pods() == pods_after(pods0, done + entry_records(*entry).take(k as int)),
                topology@ == graph_after(t0, done + entry_records(*entry).take(k as int)),
            decreases entry.pod_ips@.len() - k,
        {
            let ghost recs = done + entry_records(*entry).take(k as int);
            let ghost next = done + entry_records(*entry).take(k + 1);
            proof {
                assert(next.drop_last() =~= recs);
                assert(next.last() == (entry.pod_ips@[k as int]@, entry.namespace@, entry.service_name@, entry.service_type@));
            }
            k8s.record_pod_applied(
                topology,
                entry.pod_ips[k].as_str(),
                entry.namespace.as_str(),
                entry.service_name.as_str(),
                entry.service_type.as_str(),
            );
            k = k + 1;
        }
        proof {
            assert(entry_records(*entry).take(entry.pod_ips@.len() as int) =~= entry_records(*entry));
        }
        i = i + 1;
    }
    proof {
        assert(entries@.take(entries@.len() as int) =~= entries@);
    }
    let mut out = "Applied ".to_string();
    out.append(crate::text::decimal_text(entries.len() as u64).as_str());
    out.append(" service entries");
    out
}

} // verus!
