use qubit::envoy::{parse_envoy_routes, routes_from_yaml, svc_namespace_from_fqdn, EnvoyRoute, YamlNumber, YamlValue};

const ENVOY_YAML: &str = r#"
static_resources:
  listeners:
    - name: listener_0
      address:
        socket_address: { address: 0.0.0.0, port_value: 10000 }
      filter_chains:
        - filters:
            - name: envoy.filters.network.http_connection_manager
              typed_config:
                "@type": type.googleapis.com/envoy.extensions.filters.network.http_connection_manager.v3.HttpConnectionManager
                route_config:
                  name: local_route
                  virtual_hosts:
                    - name: orders
                      domains: ["orders.example.int", "*", "*.wild.example", "orders"]
                      routes:
                        - match: { prefix: "/" }
                          route: { cluster: orders_cluster }
                    - name: lost
                      domains: ["lost.example.int"]
                      routes:
                        - match: { prefix: "/" }
                          route: { cluster: nowhere }
            - name: direct
              route_config:
                virtual_hosts:
                  - name: pay
                    domains: ["pay.example.int"]
                    routes:
                      - route: { cluster: pay_cluster }
  clusters:
    - name: orders_cluster
      load_assignment:
        cluster_name: orders_cluster
        endpoints:
          - lb_endpoints:
              - endpoint:
                  address:
                    socket_address:
                      address: orders.shop.svc.cluster.local
                      port_value: 8080
    - name: pay_cluster
      load_assignment:
        endpoints:
          - lb_endpoints:
              - endpoint:
                  address:
                    socket_address:
                      address: payments.billing.svc
    - name: external_cluster
      load_assignment:
        endpoints:
          - lb_endpoints:
              - endpoint:
                  address:
                    socket_address:
                      address: api.github.com
    - name: ""
      load_assignment:
        endpoints:
          - lb_endpoints:
              - endpoint:
                  address:
                    socket_address:
                      address: ignored.other.svc
"#;

fn triple(r: &EnvoyRoute) -> (String, String, String) {
    (r.domain.clone(), r.service_name.clone(), r.namespace.clone())
}

fn t(a: &str, b: &str, c: &str) -> (String, String, String) {
    (a.to_string(), b.to_string(), c.to_string())
}

#[test]
fn routes_of_a_static_config() {
    let routes: Vec<_> = parse_envoy_routes(ENVOY_YAML).iter().map(triple).collect();
    assert_eq!(
        routes,
        vec![
            t("orders.shop.svc.cluster.local", "orders", "shop"),
            t("payments.billing.svc", "payments", "billing"),
            t("orders.example.int", "orders", "shop"),
            t("orders", "orders", "shop"),
            t("pay.example.int", "payments", "billing"),
        ]
    );
}

#[test]
fn text_that_is_not_yaml_gives_no_routes() {
    assert!(parse_envoy_routes("key: [unclosed").is_empty());
    assert!(parse_envoy_routes("just a string").is_empty());
}

#[test]
fn config_without_listeners_gives_cluster_routes_only() {
    let yaml = "static_resources:\n  clusters:\n    - name: c\n      load_assignment:\n        endpoints:\n          - lb_endpoints:\n              - endpoint:\n                  address:\n                    socket_address:\n                      address: a.b.svc\n";
    let routes: Vec<_> = parse_envoy_routes(yaml).iter().map(triple).collect();
    assert_eq!(routes, vec![t("a.b.svc", "a", "b")]);
}

#[test]
fn fqdn_needs_two_labels_before_svc() {
    assert_eq!(
        svc_namespace_from_fqdn("service-b.default.svc.cluster.local"),
        Some(("service-b".to_string(), "default".to_string()))
    );
    assert_eq!(svc_namespace_from_fqdn("default.svc"), None);
    assert_eq!(svc_namespace_from_fqdn("no-marker.example.com"), None);
    assert_eq!(
        svc_namespace_from_fqdn("x.a.b.svc.svc"),
        Some(("a".to_string(), "b".to_string()))
    );
    assert_eq!(svc_namespace_from_fqdn(""), None);
}

#[test]
fn tagged_nodes_and_integer_keys_are_read_through() {
    // {static_resources: !tag {clusters: [...]}} with an endpoints mapping keyed by 0
    let s = |x: &str| YamlValue::String(x.to_string());
    let map = |e: Vec<(YamlValue, YamlValue)>| YamlValue::Mapping(e);
    let socket = map(vec![(s("address"), s("svc1.ns1.svc"))]);
    let endpoint = map(vec![(s("endpoint"), map(vec![(s("address"), map(vec![(s("socket_address"), socket)]))]))]);
    let lb = map(vec![(s("lb_endpoints"), YamlValue::Sequence(vec![endpoint]))]);
    let endpoints = map(vec![(YamlValue::Number(YamlNumber::PosInt(0)), lb)]);
    let cluster = map(vec![
        (s("name"), s("c1")),
        (s("load_assignment"), map(vec![(s("endpoints"), endpoints)])),
    ]);
    let resources = YamlValue::Tagged(
        "!res".to_string(),
        Box::new(map(vec![(s("clusters"), YamlValue::Sequence(vec![cluster]))])),
    );
    let doc = map(vec![(s("static_resources"), resources)]);
    let routes: Vec<_> = routes_from_yaml(&doc).iter().map(triple).collect();
    assert_eq!(routes, vec![t("svc1.ns1.svc", "svc1", "ns1")]);
}
