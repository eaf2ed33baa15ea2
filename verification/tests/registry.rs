use qubit::registry::{PodMeta, ServiceMeta, ServiceRegistry, ServiceSpecMeta};

fn pairs(list: &[(&str, &str)]) -> Vec<(String, String)> {
    list.iter().map(|(k, v)| (k.to_string(), v.to_string())).collect()
}

fn make_service(name: &str, namespace: &str, selector: &[(&str, &str)]) -> ServiceMeta {
    ServiceMeta {
        name: Some(name.to_string()),
        namespace: Some(namespace.to_string()),
        spec: Some(ServiceSpecMeta {
            selector: Some(pairs(selector)),
            type_: Some("ClusterIP".to_string()),
            cluster_ip: None,
        }),
    }
}

fn make_pod(labels: &[(&str, &str)]) -> PodMeta {
    PodMeta {
        name: None,
        namespace: None,
        labels: Some(pairs(labels)),
        pod_ip: None,
    }
}

#[test]
fn exact_match() {
    let mut registry = ServiceRegistry::new();
    let svc = make_service("my-svc", "default", &[("app", "frontend")]);
    registry.register(&svc);

    let pod = make_pod(&[("app", "frontend")]);
    let result = registry.find_service_for_pod(&pod);

    assert!(result.is_some());
    let (name, _) = result.unwrap();
    assert_eq!(name, "my-svc");
}

#[test]
fn selector_is_subset_of_pod_labels() {
    let mut registry = ServiceRegistry::new();
    let svc = make_service("api-svc", "prod", &[("app", "api")]);
    registry.register(&svc);

    let pod = make_pod(&[("app", "api"), ("version", "v2"), ("tier", "backend")]);
    let result = registry.find_service_for_pod(&pod);

    assert!(result.is_some());
    assert_eq!(result.unwrap().0, "api-svc");
}

#[test]
fn no_match_when_pod_missing_selector_label() {
    let mut registry = ServiceRegistry::new();
    let svc = make_service("db-svc", "default", &[("app", "db"), ("env", "prod")]);
    registry.register(&svc);

    let pod = make_pod(&[("app", "db")]);
    assert!(registry.find_service_for_pod(&pod).is_none());
}

#[test]
fn deregister_removes_service() {
    let mut registry = ServiceRegistry::new();
    let svc = make_service("temp-svc", "default", &[("app", "temp")]);
    registry.register(&svc);

    registry.deregister("temp-svc", "default");

    let pod = make_pod(&[("app", "temp")]);
    assert!(registry.find_service_for_pod(&pod).is_none());
}

#[test]
fn selector_less_service_is_not_registered() {
    let mut registry = ServiceRegistry::new();
    let svc = ServiceMeta {
        name: Some("headless".to_string()),
        namespace: Some("default".to_string()),
        spec: Some(ServiceSpecMeta {
            selector: None,
            type_: None,
            cluster_ip: None,
        }),
    };
    registry.register(&svc);

    let pod = make_pod(&[("app", "anything")]);
    assert!(registry.find_service_for_pod(&pod).is_none());
}

// ── further cases ────────────────────────────────────────────────────────────

#[test]
fn register_replies() {
    let mut registry = ServiceRegistry::new();
    let nameless = ServiceMeta { name: None, namespace: None, spec: None };
    assert_eq!(registry.register(&nameless), "no service found!");
    let specless = ServiceMeta { name: Some("x".to_string()), namespace: None, spec: None };
    assert_eq!(registry.register(&specless), "No spec found!");
    let empty = make_service("e", "ns", &[]);
    assert_eq!(registry.register(&empty), "No selector found on service");
    let ok = make_service("ok", "ns", &[("app", "ok")]);
    assert_eq!(registry.register(&ok), "regisetered services");
    assert_eq!(registry.deregister("ok", "ns"), "deregisterd service");
}

#[test]
fn missing_type_defaults_to_cluster_ip_and_reregistering_replaces() {
    let mut registry = ServiceRegistry::new();
    let mut svc = make_service("web", "ns", &[("app", "web")]);
    svc.spec.as_mut().unwrap().type_ = None;
    registry.register(&svc);
    let pod = make_pod(&[("app", "web")]);
    assert_eq!(
        registry.find_service_for_pod(&pod),
        Some(("web".to_string(), "ClusterIP".to_string()))
    );
    let moved = make_service("web", "ns", &[("app", "web2")]);
    registry.register(&moved);
    assert!(registry.find_service_for_pod(&pod).is_none());
}

#[test]
fn pod_without_labels_matches_nothing() {
    let mut registry = ServiceRegistry::new();
    registry.register(&make_service("a", "ns", &[("app", "a")]));
    let pod = PodMeta { name: None, namespace: None, labels: None, pod_ip: None };
    assert!(registry.find_service_for_pod(&pod).is_none());
}

#[test]
fn label_value_must_match() {
    let mut registry = ServiceRegistry::new();
    registry.register(&make_service("a", "ns", &[("app", "a")]));
    assert!(registry.find_service_for_pod(&make_pod(&[("app", "b")])).is_none());
}
