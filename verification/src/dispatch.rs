//! What the ingestion service does with a Kubernetes event from the
//! cluster agent: an applied event records, a deleted event forgets, and an
//! event of unknown type is refused as an invalid argument with nothing
//! changed. The event type arrives already decoded; `None` stands for a
//! number that names no type.

use vstd::prelude::*;
use std::collections::HashMap;
use crate::aggregator::K8sAggregator;
use crate::model::K8sResourceEvent;
use crate::topology::{K8sEventView, Topology, spec_add_k8s_event, spec_resolve};

verus! {

/// The kinds of Kubernetes event the agent reports.
#[derive(Clone, Copy, Debug, PartialEq, Eq, Structural)]
pub enum K8sEventType {
    Applied,
    Deleted,
}

/// Why the ingestion service refuses a request.
#[derive(Debug)]
pub enum IngestError {
    /// The request names no known event type.
    InvalidArgument(String),
}

/// The text of the refusal of an unknown event type.
pub open spec fn unknown_event_type() -> Seq<char> {
    "unknown event type"@
}

/// The name of an event type.
pub open spec fn event_type_text(t: K8sEventType) -> Seq<char> {
    match t {
        K8sEventType::Applied => "Applied"@,
        K8sEventType::Deleted => "Deleted"@,
    }
}

/// The refusal of an unknown event type, as the service answers it.
pub open spec fn is_unknown_type_refusal<T>(r: Result<T, IngestError>) -> bool {
    r matches Err(IngestError::InvalidArgument(m)) && m@ == unknown_event_type()
}

fn unknown_type<T>() -> (r: Result<T, IngestError>)
    ensures
        is_unknown_type_refusal(r),
{
    Err(IngestError::InvalidArgument("unknown event type".to_string()))
}

/// The name of an event type, or the refusal of an unknown one.
pub fn event_type_name(event_type: Option<K8sEventType>) -> (r: Result<String, IngestError>)
    ensures
        match event_type {
            Some(t) => r matches Ok(s) && s@ == event_type_text(t),
            None => is_unknown_type_refusal(r),
        },
{
    match event_type {
        Some(K8sEventType::Applied) => Ok("Applied".to_string()),
        Some(K8sEventType::Deleted) => Ok("Deleted".to_string()),
        None => unknown_type(),
    }
}

/// A pod event: applied records which service the pod IP belongs to (and
/// resolves a stale graph node when the service name is known), deleted
/// forgets the IP; either answers `ok`.
pub fn send_pod_event(
    k8s: &mut K8sAggregator,
    topology: &mut Topology,
    event_type: Option<K8sEventType>,
    pod_ip: &str,
    namespace: &str,
    service_name: &str,
    service_type: &str,
) -> (r: Result<String, IngestError>)
    requires
        old(k8s).wf(),
        old(topology).wf(),
    ensures
        final(k8s).wf(),
        final(topology).wf(),
        final(k8s).services() == old(k8s).services(),
        match event_type {
            Some(K8sEventType::Applied) => r matches Ok(m) && m@ == "ok"@ && final(k8s).pods()
                == old(k8s).pods().insert(pod_ip@, (namespace@, service_name@, service_type@))
                && final(topology)@ == (if service_name@.len() > 0 {
                spec_resolve(old(topology)@, pod_ip@, service_name@, namespace@)
            } else {
                old(topology)@
            }),
            Some(K8sEventType::Deleted) => r matches Ok(m) && m@ == "ok"@ && final(k8s).pods()
                == old(k8s).pods().remove(pod_ip@) && final(topology)@ == old(topology)@,
            None => is_unknown_type_refusal(r) && final(k8s).pods() == old(k8s).pods()
                && final(topology)@ == old(topology)@,
        },
{
    match event_type {
        Some(K8sEventType::Applied) => {
            k8s.record_pod_applied(topology, pod_ip, namespace, service_name, service_type);
        },
        Some(K8sEventType::Deleted) => {
            k8s.record_pod_deleted(pod_ip);
        },
        None => {
            return unknown_type();
        },
    }
    Ok("ok".to_string())
}

/// A service event: applied records the service under `namespace/name`,
/// deleted forgets it; either answers `ok`.
pub fn send_service_event(
    k8s: &mut K8sAggregator,
    event_type: Option<K8sEventType>,
    name: &str,
    namespace: &str,
    service_type: &str,
    cluster_ip: &str,
) -> (r: Result<String, IngestError>)
    requires
        old(k8s).wf(),
    ensures
        final(k8s).wf(),
        final(k8s).pods() == old(k8s).pods(),
        match event_type {
            Some(K8sEventType::Applied) => r matches Ok(m) && m@ == "ok"@ && final(k8s).services()
                == old(k8s).services().insert(
                namespace@ + seq!['/'] + name@,
                (namespace@, service_type@, cluster_ip@),
            ),
            Some(K8sEventType::Deleted) => r matches Ok(m) && m@ == "ok"@ && final(k8s).services()
                == old(k8s).services().remove(namespace@ + seq!['/'] + name@),
            None => is_unknown_type_refusal(r) && final(k8s).services() == old(k8s).services(),
        },
{
    match event_type {
        Some(K8sEventType::Applied) => {
            k8s.record_service_applied(name, namespace, service_type, cluster_ip);
        },
        Some(K8sEventType::Deleted) => {
            k8s.record_service_deleted(name, namespace);
        },
        None => {
            return unknown_type();
        },
    }
    Ok("ok".to_string())
}

/// A ConfigMap event is only acknowledged: `ok` for a known type.
pub fn send_config_map_event(event_type: Option<K8sEventType>) -> (r: Result<String, IngestError>)
    ensures
        match event_type {
            Some(_) => r matches Ok(m) && m@ == "ok"@,
            None => is_unknown_type_refusal(r),
        },
{
    match event_type {
        Some(_) => Ok("ok".to_string()),
        None => unknown_type(),
    }
}

/// A generic resource event, seen at `now`: attached to the graph node
/// `(name, namespace)` under the name of its type, and returned to be
/// persisted.
pub fn send_k8s_resource_event(
    k8s: &K8sAggregator,
    topology: &mut Topology,
    event_type: Option<K8sEventType>,
    resource_type: &str,
    name: &str,
    namespace: &str,
    labels: &HashMap<String, String>,
    resource_data: &str,
    now: u64,
) -> (r: Result<K8sResourceEvent, IngestError>)
    requires
        old(topology).wf(),
    ensures
        final(topology).wf(),
        match event_type {
            Some(t) => r matches Ok(e) && e.event_type@ == event_type_text(t) && e.event_time
                == now as u32 && e.resource_type@ == resource_type@ && e.name@ == name@
                && e.namespace@ == namespace@ && e.resource_data@ == resource_data@
                && final(topology)@ == spec_add_k8s_event(
                old(topology)@,
                (name@, namespace@),
                K8sEventView {
                    timestamp: now,
                    resource_name: name@,
                    resource_type: resource_type@,
                    event_type: event_type_text(t),
                    event_data: resource_data@,
                },
            ),
            None => is_unknown_type_refusal(r) && final(topology)@ == old(topology)@,
        },
        r matches Ok(e) ==> (labels@.is_empty() ==> e.labels@ == "{}"@),
        r matches Ok(e) ==> (!labels@.is_empty() ==> e.labels@.len() >= 2 && e.labels@[0] == '{'
            && e.labels@.last() == '}'),
{
    let kind_name = match event_type_name(event_type) {
        Ok(s) => s,
        Err(e) => {
            return Err(e);
        },
    };
    let event = k8s.record_k8s_resource_event(
        topology,
        resource_type,
        name,
        namespace,
        kind_name.as_str(),
        labels,
        resource_data,
        now,
    );
    Ok(event)
}

} // verus!
