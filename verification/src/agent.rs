//! What the cluster agent reads out of Kubernetes objects before it reports
//! them to the core service.

use vstd::prelude::*;
use crate::envoy::{envoy_routes, parse_envoy_routes, routes_view, yaml_document, EnvoyRoute, RouteView};
use crate::registry::{
    cluster_ip_type, copy_labels, label_value, labels_view, lookup_label, selector_matches,
    selects, Labels, PodMeta, ServiceMeta,
};
use crate::text::{chars_of, decimal_digits, decimal_text, push_char};

verus! {

/// The text, or the empty text.
pub open spec fn or_empty(o: Option<String>) -> Seq<char> {
    match o {
        Some(s) => s@,
        None => Seq::empty(),
    }
}

/// The view of an optional text.
pub open spec fn opt_text(o: Option<String>) -> Option<Seq<char>> {
    match o {
        Some(s) => Some(s@),
        None => None,
    }
}

/// A copy of an optional text, or the empty text.
fn text_or_default(o: &Option<String>) -> (r: String)
    ensures
        r@ == or_empty(*o),
{
    match o {
        Some(s) => s.clone(),
        None => String::new(),
    }
}

/// The labels of a pod, none when it has no label map.
pub open spec fn pod_labels(p: PodMeta) -> Seq<(Seq<char>, Seq<char>)> {
    match p.labels {
        Some(l) => labels_view(l@),
        None => Seq::empty(),
    }
}

/// A pod's IP and namespace, when its status reports an IP.
pub fn pod_ip_and_namespace(pod: &PodMeta) -> (r: Option<(String, String)>)
    ensures
        match r {
            Some((ip, ns)) => opt_text(pod.pod_ip) == Some(ip@) && ns@ == or_empty(pod.namespace),
            None => pod.pod_ip is None,
        },
{
    let ip = match &pod.pod_ip {
        Some(ip) => ip.clone(),
        None => {
            return None;
        },
    };
    let namespace = text_or_default(&pod.namespace);
    Some((ip, namespace))
}

/// A pod's IP, when its status reports one.
pub fn pod_ip(pod: &PodMeta) -> (r: Option<String>)
    ensures
        opt_text(r) == opt_text(pod.pod_ip),
{
    match &pod.pod_ip {
        Some(ip) => Some(ip.clone()),
        None => None,
    }
}

/// The name a pod is known by: its service's name, else the first of its
/// labels `app.kubernetes.io/name`, `app.k8s.io/name` and `app`, else its
/// own name.
pub open spec fn application_name(pod: PodMeta, service_name: Seq<char>) -> Seq<char> {
    let l = pod_labels(pod);
    if service_name.len() > 0 {
        service_name
    } else if label_value(l, "app.kubernetes.io/name"@) is Some {
        label_value(l, "app.kubernetes.io/name"@)->0
    } else if label_value(l, "app.k8s.io/name"@) is Some {
        label_value(l, "app.k8s.io/name"@)->0
    } else if label_value(l, "app"@) is Some {
        label_value(l, "app"@)->0
    } else {
        or_empty(pod.name)
    }
}

/// The name a pod is known by.
pub fn resolve_application_name(pod: &PodMeta, service_name: &str) -> (r: String)
    ensures
        r@ == application_name(*pod, service_name@),
{
    if !service_name.is_empty() {
        return service_name.to_string();
    }
    if let Some(l) = &pod.labels {
        let k1 = "app.kubernetes.io/name".to_string();
        if let Some(name) = lookup_label(l, &k1) {
            return name.clone();
        }
        let k2 = "app.k8s.io/name".to_string();
        if let Some(name) = lookup_label(l, &k2) {
            return name.clone();
        }
        let k3 = "app".to_string();
        if let Some(name) = lookup_label(l, &k3) {
            return name.clone();
        }
    }
    text_or_default(&pod.name)
}

/// What the agent reports of a service: name, namespace, type (default
/// `ClusterIP`) and cluster IP, when the service has a name and a spec.
pub fn extract_fields(svc: &ServiceMeta) -> (r: Option<(String, String, String, String)>)
    ensures
        match r {
            None => svc.name is None || svc.spec is None,
            Some((name, ns, ty, ip)) => svc.name is Some && svc.spec is Some && name@ == svc.name->0@
                && ns@ == or_empty(svc.namespace) && ty@ == (match svc.spec->0.type_ {
                Some(t) => t@,
                None => cluster_ip_type(),
            }) && ip@ == or_empty(svc.spec->0.cluster_ip),
        },
{
    let name = match &svc.name {
        Some(n) => n.clone(),
        None => {
            return None;
        },
    };
    let namespace = text_or_default(&svc.namespace);
    let spec = match &svc.spec {
        Some(s) => s,
        None => {
            return None;
        },
    };
    let service_type = match &spec.type_ {
        Some(t) => t.clone(),
        None => {
            proof {
                reveal_strlit("ClusterIP");
                assert("ClusterIP"@ =~= cluster_ip_type());
            }
            "ClusterIP".to_string()
        },
    };
    let cluster_ip = text_or_default(&spec.cluster_ip);
    Some((name, namespace, service_type, cluster_ip))
}

/// What the agent reports of any resource's metadata: name and namespace
/// (empty when absent) and its labels (none when absent).
pub fn extract_metadata(name: &Option<String>, namespace: &Option<String>, labels: &Option<Labels>) -> (r: (
    String,
    String,
    Labels,
))
    ensures
        r.0@ == or_empty(*name),
        r.1@ == or_empty(*namespace),
        labels_view(r.2@) == (match labels {
            Some(l) => labels_view(l@),
            None => Seq::empty(),
        }),
{
    let l = match labels {
        Some(l) => copy_labels(l),
        None => {
            let v: Labels = Vec::new();
            assert(labels_view(v@) =~= Seq::<(Seq<char>, Seq<char>)>::empty());
            v
        },
    };
    (text_or_default(name), text_or_default(namespace), l)
}

/// A character with JSON string escaping applied to backslash, double
/// quote, newline and carriage return.
pub open spec fn escaped_char(c: char) -> Seq<char> {
    if c == '\\' {
        seq!['\\', '\\']
    } else if c == '"' {
        seq!['\\', '"']
    } else if c == '\n' {
        seq!['\\', 'n']
    } else if c == '\r' {
        seq!['\\', 'r']
    } else {
        seq![c]
    }
}

/// A text with every character escaped.
pub open spec fn escaped(s: Seq<char>) -> Seq<char>
    decreases s.len(),
{
    if s.len() == 0 {
        Seq::empty()
    } else {
        escaped(s.drop_last()) + escaped_char(s.last())
    }
}

/// Minimal JSON string escaping for hand-built JSON.
pub fn escape_json(s: &str) -> (r: String)
    ensures
        r@ == escaped(s@),
{
    let v = chars_of(s);
    let mut out = String::new();
    let mut i: usize = 0;
    while i < v.len()
        invariant
            v@ == s@,
            i <= v.len(),
            out@ == escaped(s@.take(i as int)),
        decreases v.len() - i,
    {
        let c = v[i];
        let ghost before = out@;
        proof {
            assert(s@.take(i + 1).drop_last() =~= s@.take(i as int));
        }
        if c == '\\' {
            push_char(&mut out, '\\');
            push_char(&mut out, '\\');
        } else if c == '"' {
            push_char(&mut out, '\\');
            push_char(&mut out, '"');
        } else if c == '\n' {
            push_char(&mut out, '\\');
            push_char(&mut out, 'n');
        } else if c == '\r' {
            push_char(&mut out, '\\');
            push_char(&mut out, 'r');
        } else {
            push_char(&mut out, c);
        }
        assert(out@ =~= before + escaped_char(c));
        i = i + 1;
    }
    assert(s@.take(v.len() as int) =~= s@);
    out
}

/// The decimal text of a signed integer.
pub open spec fn signed_digits(n: int) -> Seq<char> {
    if n < 0 {
        seq!['-'] + decimal_digits((-n) as nat)
    } else {
        decimal_digits(n as nat)
    }
}

/// The decimal text of an `i32`.
pub fn signed_text(n: i32) -> (r: String)
    ensures
        r@ == signed_digits(n as int),
{
    if n < 0 {
        let magnitude: u64 = (0i64 - n as i64) as u64;
        let digits = decimal_text(magnitude);
        let mut s = String::new();
        push_char(&mut s, '-');
        s.append(digits.as_str());
        assert(s@ =~= seq!['-'] + decimal_digits((-n) as nat));
        s
    } else {
        decimal_text(n as u64)
    }
}

/// What the agent reads of a Kubernetes `Event`.
pub struct EventMeta {
    pub reason: Option<String>,
    pub message: Option<String>,
    pub type_: Option<String>,
    pub count: Option<i32>,
    pub involved_kind: Option<String>,
    pub involved_name: Option<String>,
    pub involved_namespace: Option<String>,
}

/// The JSON text `build_event_data` writes for an event.
pub open spec fn event_data(e: EventMeta) -> Seq<char> {
    let event_type = match e.type_ {
        Some(t) => t@,
        None => "Normal"@,
    };
    let count: int = match e.count {
        Some(c) => c as int,
        None => 1,
    };
    "{\"reason\":\""@ + escaped(or_empty(e.reason)) + "\",\"message\":\""@ + escaped(
        or_empty(e.message),
    ) + "\",\"type\":\""@ + escaped(event_type) + "\",\"count\":"@ + signed_digits(count)
        + ",\"involved_kind\":\""@ + escaped(or_empty(e.involved_kind)) + "\",\"involved_name\":\""@
        + escaped(or_empty(e.involved_name)) + "\",\"involved_namespace\":\""@ + escaped(
        or_empty(e.involved_namespace),
    ) + "\"}"@
}

/// Builds a JSON string with the debugging-relevant fields from a K8s Event:
/// reason, message, type (default `Normal`), count (default 1) and the
/// kind, name and namespace of the object it is about.
pub fn build_event_data(event: &EventMeta) -> (r: String)
    ensures
        r@ == event_data(*event),
{
    let reason = text_or_default(&event.reason);
    let message = text_or_default(&event.message);
    let event_type = match &event.type_ {
        Some(t) => t.clone(),
        None => "Normal".to_string(),
    };
    let count: i32 = match event.count {
        Some(c) => c,
        None => 1,
    };
    let kind = text_or_default(&event.involved_kind);
    let name = text_or_default(&event.involved_name);
    let namespace = text_or_default(&event.involved_namespace);
    let mut out = "{\"reason\":\"".to_string();
    out.append(escape_json(reason.as_str()).as_str());
    out.append("\",\"message\":\"");
    out.append(escape_json(message.as_str()).as_str());
    out.append("\",\"type\":\"");
    out.append(escape_json(event_type.as_str()).as_str());
    out.append("\",\"count\":");
    out.append(signed_text(count).as_str());
    out.append(",\"involved_kind\":\"");
    out.append(escape_json(kind.as_str()).as_str());
    out.append("\",\"involved_name\":\"");
    out.append(escape_json(name.as_str()).as_str());
    out.append("\",\"involved_namespace\":\"");
    out.append(escape_json(namespace.as_str()).as_str());
    out.append("\"}");
    out
}

/// The IPs of the pods a selector selects, among those that report one.
pub open spec fn selected_ips(selector: Seq<(Seq<char>, Seq<char>)>, pods: Seq<PodMeta>) -> Seq<Seq<char>>
    decreases pods.len(),
{
    if pods.len() == 0 {
        Seq::empty()
    } else {
        let rest = selected_ips(selector, pods.drop_last());
        let p = pods.last();
        if selects(selector, pod_labels(p)) && p.pod_ip is Some {
            rest.push(p.pod_ip->0@)
        } else {
            rest
        }
    }
}

/// The view of a service's entry in the pod map: (service name, namespace,
/// service type, pod IPs).
pub type ServicePodsView = (Seq<char>, Seq<char>, Seq<char>, Seq<Seq<char>>);

/// A service's entry in the pod map: services without a name, a spec or a
/// selector, and services that select no pod with an IP, have none.
pub open spec fn service_pods(svc: ServiceMeta, pods: Seq<PodMeta>) -> Option<ServicePodsView> {
    match svc.name {
        None => None,
        Some(name) => match svc.spec {
            None => None,
            Some(spec) => {
                let selector = match spec.selector {
                    Some(s) => labels_view(s@),
                    None => Seq::empty(),
                };
                let ips = selected_ips(selector, pods);
                if selector.len() == 0 || ips.len() == 0 {
                    None
                } else {
                    Some(
                        (
                            name@,
                            or_empty(svc.namespace),
                            match spec.type_ {
                                Some(t) => t@,
                                None => cluster_ip_type(),
                            },
                            ips,
                        ),
                    )
                }
            },
        },
    }
}

/// The pod map: an entry per service that has one, in service order.
pub open spec fn service_pod_entries(services: Seq<ServiceMeta>, pods: Seq<PodMeta>) -> Seq<ServicePodsView>
    decreases services.len(),
{
    if services.len() == 0 {
        Seq::empty()
    } else {
        let rest = service_pod_entries(services.drop_last(), pods);
        match service_pods(services.last(), pods) {
            Some(e) => rest.push(e),
            None => rest,
        }
    }
}

/// The views of pod-map entries.
pub open spec fn pod_map_view(s: Seq<(String, String, String, Vec<String>)>) -> Seq<ServicePodsView> {
    s.map_values(
        |e: (String, String, String, Vec<String>)| (e.0@, e.1@, e.2@, e.3@.map_values(|x: String| x@)),
    )
}

fn selected_pod_ips(selector: &Labels, pods: &Vec<PodMeta>) -> (r: Vec<String>)
    ensures
        r@.map_values(|x: String| x@) == selected_ips(labels_view(selector@), pods@),
{
    let ghost sel = labels_view(selector@);
    let mut out: Vec<String> = Vec::new();
    let mut i: usize = 0;
    while i < pods.len()
        invariant
            i <= pods@.len(),
            sel == labels_view(selector@),
            out@.map_values(|x: String| x@) == selected_ips(sel, pods@.take(i as int)),
        decreases pods@.len() - i,
    {
        proof {
            assert(pods@.take(i + 1).drop_last() =~= pods@.take(i as int));
        }
        let p = &pods[i];
        let ghost before = out@.map_values(|x: String| x@);
        let chosen = match &p.labels {
            Some(l) => selector_matches(selector, l),
            None => {
                let empty: Labels = Vec::new();
                assert(labels_view(empty@) =~= Seq::<(Seq<char>, Seq<char>)>::empty());
                selector_matches(selector, &empty)
            },
        };
        if chosen {
            match &p.pod_ip {
                Some(ip) => {
                    out.push(ip.clone());
                    assert(out@.map_values(|x: String| x@) =~= before.push(ip@));
                },
                None => {},
            }
        }
        i = i + 1;
    }
    assert(pods@.take(pods@.len() as int) =~= pods@);
    out
}

/// For each service with a selector, the IPs of the pods it selects; a
/// service selecting no pod with an IP is left out.
pub fn service_pod_map(services: &Vec<ServiceMeta>, pods: &Vec<PodMeta>) -> (r: Vec<(String, String, String, Vec<String>)>)
    ensures
        pod_map_view(r@) == service_pod_entries(services@, pods@),
{
    let mut entries: Vec<(String, String, String, Vec<String>)> = Vec::new();
    let mut i: usize = 0;
    while i < services.len()
        invariant
            i <= services@.len(),
            pod_map_view(entries@) == service_pod_entries(services@.take(i as int), pods@),
        decreases services@.len() - i,
    {
        proof {
            assert(services@.take(i + 1).drop_last() =~= services@.take(i as int));
        }
        let svc = &services[i];
        let ghost before = pod_map_view(entries@);
        if let Some(name) = &svc.name {
            if let Some(spec) = &svc.spec {
                let selector = match &spec.selector {
                    Some(s) => copy_labels(s),
                    None => {
                        let v: Labels = Vec::new();
                        assert(labels_view(v@) =~= Seq::<(Seq<char>, Seq<char>)>::empty());
                        v
                    },
                };
                if selector.len() > 0 {
                    let ips = selected_pod_ips(&selector, pods);
                    if ips.len() > 0 {
                        let namespace = text_or_default(&svc.namespace);
                        let service_type = match &spec.type_ {
                            Some(t) => t.clone(),
                            None => {
                                proof {
                                    reveal_strlit("ClusterIP");
                                    assert("ClusterIP"@ =~= cluster_ip_type());
                                }
                                "ClusterIP".to_string()
                            },
                        };
                        let ghost e = (name@, namespace@, service_type@, ips@.map_values(|x: String| x@));
                        entries.push((name.clone(), namespace, service_type, ips));
                        assert(pod_map_view(entries@) =~= before.push(e));
                    }
                }
            }
        }
        i = i + 1;
    }
    assert(services@.take(services@.len() as int) =~= services@);
    entries
}

/// What the agent reads of a ConfigMap.
pub struct ConfigMapMeta {
    pub name: Option<String>,
    pub namespace: Option<String>,
    pub data: Option<Labels>,
}

/// The Envoy routes a ConfigMap carries under its `envoy.yaml` key.
pub open spec fn configmap_routes_of(cm: ConfigMapMeta) -> Seq<RouteView> {
    match cm.data {
        None => Seq::empty(),
        Some(d) => match label_value(labels_view(d@), "envoy.yaml"@) {
            None => Seq::empty(),
            Some(y) => match yaml_document(y) {
                None => Seq::empty(),
                Some(v) => envoy_routes(v),
            },
        },
    }
}

/// The Envoy routes of a ConfigMap: those of its `envoy.yaml` entry, if
/// it has one.
pub fn configmap_routes(cm: &ConfigMapMeta) -> (r: Vec<EnvoyRoute>)
    ensures
        routes_view(r@) == configmap_routes_of(*cm),
{
    match &cm.data {
        None => Vec::new(),
        Some(d) => {
            let key = "envoy.yaml".to_string();
            match lookup_label(d, &key) {
                None => Vec::new(),
                Some(y) => parse_envoy_routes(y.as_str()),
            }
        },
    }
}

/// The routes of many ConfigMaps, one after the other.
pub open spec fn configmaps_routes_of(cms: Seq<ConfigMapMeta>) -> Seq<RouteView>
    decreases cms.len(),
{
    if cms.len() == 0 {
        Seq::empty()
    } else {
        configmaps_routes_of(cms.drop_last()) + configmap_routes_of(cms.last())
    }
}

/// The Envoy routes of all ConfigMaps.
pub fn routes_from_configmaps(cms: &Vec<ConfigMapMeta>) -> (r: Vec<EnvoyRoute>)
    ensures
        routes_view(r@) == configmaps_routes_of(cms@),
{
    let mut all: Vec<EnvoyRoute> = Vec::new();
    let mut i: usize = 0;
    while i < cms.len()
        invariant
            i <= cms@.len(),
            routes_view(all@) == configmaps_routes_of(cms@.take(i as int)),
        decreases cms@.len() - i,
    {
        proof {
            assert(cms@.take(i + 1).drop_last() =~= cms@.take(i as int));
        }
        let ghost before = routes_view(all@);
        let mut more = configmap_routes(&cms[i]);
        let ghost add = routes_view(more@);
        all.append(&mut more);
        assert(routes_view(all@) =~= before + add);
        i = i + 1;
    }
    assert(cms@.take(cms@.len() as int) =~= cms@);
    all
}

} // verus!
