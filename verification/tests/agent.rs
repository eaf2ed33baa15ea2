use qubit::agent::{
    build_event_data, configmap_routes, escape_json, extract_fields, extract_metadata, pod_ip,
    pod_ip_and_namespace, resolve_application_name, routes_from_configmaps, service_pod_map,
    signed_text, ConfigMapMeta, EventMeta,
};
use qubit::registry::{PodMeta, ServiceMeta, ServiceSpecMeta};

fn pairs(list: &[(&str, &str)]) -> Vec<(String, String)> {
    list.iter().map(|(k, v)| (k.to_string(), v.to_string())).collect()
}

fn pod(name: Option<&str>, labels: Option<&[(&str, &str)]>, ip: Option<&str>) -> PodMeta {
    PodMeta {
        name: name.map(|s| s.to_string()),
        namespace: Some("default".to_string()),
        labels: labels.map(pairs),
        pod_ip: ip.map(|s| s.to_string()),
    }
}

fn service(name: &str, selector: &[(&str, &str)], type_: Option<&str>) -> ServiceMeta {
    ServiceMeta {
        name: Some(name.to_string()),
        namespace: Some("default".to_string()),
        spec: Some(ServiceSpecMeta {
            selector: Some(pairs(selector)),
            type_: type_.map(|s| s.to_string()),
            cluster_ip: Some("10.96.0.1".to_string()),
        }),
    }
}

#[test]
fn application_name_prefers_service_then_labels_then_name() {
    let p = pod(Some("pod-1"), Some(&[("app", "a"), ("app.k8s.io/name", "b"), ("app.kubernetes.io/name", "c")]), None);
    assert_eq!(resolve_application_name(&p, "svc"), "svc");
    assert_eq!(resolve_application_name(&p, ""), "c");
    let p = pod(Some("pod-1"), Some(&[("app", "a"), ("app.k8s.io/name", "b")]), None);
    assert_eq!(resolve_application_name(&p, ""), "b");
    let p = pod(Some("pod-1"), Some(&[("app", "a")]), None);
    assert_eq!(resolve_application_name(&p, ""), "a");
    let p = pod(Some("pod-1"), None, None);
    assert_eq!(resolve_application_name(&p, ""), "pod-1");
    let p = pod(None, None, None);
    assert_eq!(resolve_application_name(&p, ""), "");
}

#[test]
fn pod_ip_comes_from_status() {
    let p = pod(None, None, Some("10.1.2.3"));
    assert_eq!(pod_ip(&p), Some("10.1.2.3".to_string()));
    assert_eq!(pod_ip_and_namespace(&p), Some(("10.1.2.3".to_string(), "default".to_string())));
    let mut q = pod(None, None, None);
    assert_eq!(pod_ip(&q), None);
    assert_eq!(pod_ip_and_namespace(&q), None);
    q.pod_ip = Some("1.1.1.1".to_string());
    q.namespace = None;
    assert_eq!(pod_ip_and_namespace(&q), Some(("1.1.1.1".to_string(), String::new())));
}

#[test]
fn service_fields_with_defaults() {
    let s = service("web", &[("app", "web")], None);
    assert_eq!(
        extract_fields(&s),
        Some(("web".to_string(), "default".to_string(), "ClusterIP".to_string(), "10.96.0.1".to_string()))
    );
    let nameless = ServiceMeta { name: None, namespace: None, spec: None };
    assert_eq!(extract_fields(&nameless), None);
    let specless = ServiceMeta { name: Some("x".to_string()), namespace: None, spec: None };
    assert_eq!(extract_fields(&specless), None);
}

#[test]
fn metadata_defaults_to_empty() {
    let (n, ns, l) = extract_metadata(&None, &Some("prod".to_string()), &None);
    assert_eq!(n, "");
    assert_eq!(ns, "prod");
    assert!(l.is_empty());
    let (_, _, l) = extract_metadata(&Some("d".to_string()), &None, &Some(pairs(&[("k", "v")])));
    assert_eq!(l, pairs(&[("k", "v")]));
}

#[test]
fn json_escaping() {
    assert_eq!(escape_json("plain"), "plain");
    assert_eq!(escape_json("a\"b\\c\nd\re"), "a\\\"b\\\\c\\nd\\re");
    assert_eq!(escape_json("\\\""), "\\\\\\\"");
    assert_eq!(escape_json("tab\tstays"), "tab\tstays");
}

#[test]
fn signed_decimal() {
    assert_eq!(signed_text(0), "0");
    assert_eq!(signed_text(42), "42");
    assert_eq!(signed_text(-7), "-7");
    assert_eq!(signed_text(i32::MIN), "-2147483648");
    assert_eq!(signed_text(i32::MAX), "2147483647");
}

#[test]
fn event_data_json() {
    let e = EventMeta {
        reason: Some("BackOff".to_string()),
        message: Some("Back-off \"restarting\"".to_string()),
        type_: None,
        count: Some(3),
        involved_kind: Some("Pod".to_string()),
        involved_name: Some("api-1".to_string()),
        involved_namespace: None,
    };
    assert_eq!(
        build_event_data(&e),
        "{\"reason\":\"BackOff\",\"message\":\"Back-off \\\"restarting\\\"\",\"type\":\"Normal\",\"count\":3,\"involved_kind\":\"Pod\",\"involved_name\":\"api-1\",\"involved_namespace\":\"\"}"
    );
    let empty = EventMeta {
        reason: None,
        message: None,
        type_: Some("Warning".to_string()),
        count: None,
        involved_kind: None,
        involved_name: None,
        involved_namespace: None,
    };
    assert_eq!(
        build_event_data(&empty),
        "{\"reason\":\"\",\"message\":\"\",\"type\":\"Warning\",\"count\":1,\"involved_kind\":\"\",\"involved_name\":\"\",\"involved_namespace\":\"\"}"
    );
}

#[test]
fn pod_map_lists_selected_pods_with_ips() {
    let services = vec![
        service("web", &[("app", "web")], None),
        service("db", &[("app", "db")], Some("NodePort")),
        service("empty", &[], None),
        ServiceMeta { name: None, namespace: None, spec: None },
        service("none", &[("app", "none")], None),
    ];
    let pods = vec![
        pod(Some("w1"), Some(&[("app", "web")]), Some("10.0.0.1")),
        pod(Some("w2"), Some(&[("app", "web"), ("v", "2")]), Some("10.0.0.2")),
        pod(Some("w3"), Some(&[("app", "web")]), None),
        pod(Some("d1"), Some(&[("app", "db")]), Some("10.0.0.3")),
        pod(Some("n1"), None, Some("10.0.0.4")),
    ];
    let map = service_pod_map(&services, &pods);
    assert_eq!(
        map,
        vec![
            (
                "web".to_string(),
                "default".to_string(),
                "ClusterIP".to_string(),
                vec!["10.0.0.1".to_string(), "10.0.0.2".to_string()]
            ),
            (
                "db".to_string(),
                "default".to_string(),
                "NodePort".to_string(),
                vec!["10.0.0.3".to_string()]
            ),
        ]
    );
}

#[test]
fn configmap_routes_need_the_envoy_key() {
    let yaml = "static_resources:\n  clusters:\n    - name: c\n      load_assignment:\n        endpoints:\n          - lb_endpoints:\n              - endpoint:\n                  address:\n                    socket_address:\n                      address: a.b.svc\n";
    let with = ConfigMapMeta {
        name: Some("envoy".to_string()),
        namespace: Some("default".to_string()),
        data: Some(pairs(&[("other", "x"), ("envoy.yaml", yaml)])),
    };
    let without = ConfigMapMeta {
        name: Some("plain".to_string()),
        namespace: None,
        data: Some(pairs(&[("config.yaml", yaml)])),
    };
    let no_data = ConfigMapMeta { name: None, namespace: None, data: None };
    assert_eq!(configmap_routes(&with).len(), 1);
    assert!(configmap_routes(&without).is_empty());
    assert!(configmap_routes(&no_data).is_empty());
    let all = routes_from_configmaps(&vec![with, without, no_data]);
    assert_eq!(all.len(), 1);
    assert_eq!(all[0].domain, "a.b.svc");
    assert_eq!(all[0].service_name, "a");
    assert_eq!(all[0].namespace, "b");
}
