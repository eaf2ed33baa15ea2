//! Reading domain → service routes out of a static Envoy configuration.

use vstd::prelude::*;
use crate::text::{chars_of, split_on, split_text, views};

verus! {

#[verifier::external_type_specification]
#[verifier::external_body]
pub struct OutsideYamlValue(serde_yaml::Value);

#[verifier::external_type_specification]
#[verifier::external_body]
pub struct OutsideYamlNumber(serde_yaml::Number);

/// A YAML number, told apart as `serde_yaml` holds it: a non-negative
/// integer, a negative integer, or any other number (its value is not kept).
pub enum YamlNumber {
    PosInt(u64),
    NegInt(i64),
    Float,
}

/// A YAML document node, as `serde_yaml::Value` holds it; a mapping keeps
/// its entries in document order.
pub enum YamlValue {
    Null,
    Bool(bool),
    Number(YamlNumber),
    String(String),
    Sequence(Vec<YamlValue>),
    Mapping(Vec<(YamlValue, YamlValue)>),
    Tagged(String, Box<YamlValue>),
}

/// What `serde_yaml` parses a text into, `None` where it is not YAML.
pub uninterp spec fn yaml_document(text: Seq<char>) -> Option<YamlValue>;

/// Moves a `serde_yaml::Number` into the library's form.
#[verifier::external_body]
fn yaml_number_from(n: serde_yaml::Number) -> YamlNumber {
    match (n.as_u64(), n.as_i64()) {
        (Some(u), _) => YamlNumber::PosInt(u),
        (None, Some(i)) => YamlNumber::NegInt(i),
        (None, None) => YamlNumber::Float,
    }
}

/// Moves a `serde_yaml::Value` into the library's form, node for node.
#[verifier::external_body]
fn yaml_value_from(v: serde_yaml::Value) -> YamlValue {
    match v {
        serde_yaml::Value::Null => YamlValue::Null,
        serde_yaml::Value::Bool(b) => YamlValue::Bool(b),
        serde_yaml::Value::Number(n) => YamlValue::Number(yaml_number_from(n)),
        serde_yaml::Value::String(s) => YamlValue::String(s),
        serde_yaml::Value::Sequence(s) => YamlValue::Sequence(s.into_iter().map(yaml_value_from).collect()),
        serde_yaml::Value::Mapping(m) => YamlValue::Mapping(
            m.into_iter().map(|(k, v)| (yaml_value_from(k), yaml_value_from(v))).collect(),
        ),
        serde_yaml::Value::Tagged(t) => YamlValue::Tagged(t.tag.to_string(), Box::new(yaml_value_from(t.value))),
    }
}

/// Parses YAML text with `serde_yaml::from_str` into a `serde_yaml::Value`;
/// the contract names the result.
#[verifier::external_body]
fn parse_yaml(text: &str) -> (r: Option<YamlValue>)
    ensures
        r == yaml_document(text@),
{
    match serde_yaml::from_str::<serde_yaml::Value>(text) {
        Ok(v) => Some(yaml_value_from(v)),
        Err(_) => None,
    }
}

/// A node with its tags taken off.
pub open spec fn untag(v: YamlValue) -> YamlValue
    decreases v,
{
    match v {
        YamlValue::Tagged(_, b) => untag(*b),
        _ => v,
    }
}

/// The value of the first entry keyed by the string `key`.
pub open spec fn lookup_key(m: Seq<(YamlValue, YamlValue)>, key: Seq<char>) -> Option<YamlValue>
    decreases m.len(),
{
    if m.len() == 0 {
        None
    } else if (match m[0].0 {
        YamlValue::String(s) => s@ == key,
        _ => false,
    }) {
        Some(m[0].1)
    } else {
        lookup_key(m.drop_first(), key)
    }
}

/// The value of the first entry keyed by the integer `i`.
pub open spec fn lookup_index(m: Seq<(YamlValue, YamlValue)>, i: nat) -> Option<YamlValue>
    decreases m.len(),
{
    if m.len() == 0 {
        None
    } else if (match m[0].0 {
        YamlValue::Number(YamlNumber::PosInt(n)) => n == i,
        _ => false,
    }) {
        Some(m[0].1)
    } else {
        lookup_index(m.drop_first(), i)
    }
}

/// `v[key]`: the value under a string key of a mapping; `None` stands for
/// the null that `serde_yaml` answers for anything missing.
pub open spec fn field(v: Option<YamlValue>, key: Seq<char>) -> Option<YamlValue> {
    match v {
        None => None,
        Some(x) => match untag(x) {
            YamlValue::Mapping(m) => lookup_key(m@, key),
            _ => None,
        },
    }
}

/// `v[i]`: an item of a sequence, or the value under the integer key `i`
/// of a mapping.
pub open spec fn item(v: Option<YamlValue>, i: nat) -> Option<YamlValue> {
    match v {
        None => None,
        Some(x) => match untag(x) {
            YamlValue::Sequence(s) => if i < s@.len() {
                Some(s@[i as int])
            } else {
                None
            },
            YamlValue::Mapping(m) => lookup_index(m@, i),
            _ => None,
        },
    }
}

/// `v.as_str()`.
pub open spec fn as_text(v: Option<YamlValue>) -> Option<Seq<char>> {
    match v {
        None => None,
        Some(x) => match untag(x) {
            YamlValue::String(s) => Some(s@),
            _ => None,
        },
    }
}

/// `v.as_sequence()`.
pub open spec fn as_items(v: Option<YamlValue>) -> Option<Seq<YamlValue>> {
    match v {
        None => None,
        Some(x) => match untag(x) {
            YamlValue::Sequence(s) => Some(s@),
            _ => None,
        },
    }
}

/// `v.is_mapping()`.
pub open spec fn is_map(v: Option<YamlValue>) -> bool {
    match v {
        None => false,
        Some(x) => untag(x) is Mapping,
    }
}

/// The text, or the empty text.
pub open spec fn text_or_empty(t: Option<Seq<char>>) -> Seq<char> {
    match t {
        Some(s) => s,
        None => Seq::empty(),
    }
}

fn untag_exec(v: &YamlValue) -> (r: &YamlValue)
    ensures
        *r == untag(*v),
{
    let mut cur = v;
    loop
        invariant
            untag(*cur) == untag(*v),
        decreases *cur,
    {
        match cur {
            YamlValue::Tagged(_, b) => {
                cur = &**b;
            },
            _ => {
                return cur;
            },
        }
    }
}

/// Whether two texts are equal.
fn same_text(a: &str, b: &str) -> (r: bool)
    ensures
        r == (a@ == b@),
{
    let x = chars_of(a);
    let y = chars_of(b);
    if x.len() != y.len() {
        return false;
    }
    let mut i: usize = 0;
    while i < x.len()
        invariant
            x@ == a@,
            y@ == b@,
            x.len() == y.len(),
            i <= x.len(),
            forall|j: int| 0 <= j < i ==> x@[j] == y@[j],
        decreases x.len() - i,
    {
        if x[i] != y[i] {
            return false;
        }
        i = i + 1;
    }
    assert(a@ =~= b@);
    true
}

fn field_of<'a>(v: Option<&'a YamlValue>, key: &str) -> (r: Option<&'a YamlValue>)
    ensures
        opt_node(r) == field(opt_node(v), key@),
{
    let x = match v {
        None => {
            return None;
        },
        Some(x) => untag_exec(x),
    };
    match x {
        YamlValue::Mapping(m) => {
            let ghost s = m@;
            let ghost target = field(opt_node(v), key@);
            assert(s.skip(0) =~= s);
            let mut i: usize = 0;
            while i < m.len()
                invariant
                    s == m@,
                    i <= s.len(),
                    target == lookup_key(s.skip(i as int), key@),
                    target == field(opt_node(v), key@),
                decreases s.len() - i,
            {
                assert(s.skip(i as int).drop_first() =~= s.skip(i as int + 1));
                let matched = match &m[i].0 {
                    YamlValue::String(k) => same_text(k.as_str(), key),
                    _ => false,
                };
                if matched {
                    return Some(&m[i].1);
                }
                i = i + 1;
            }
            None
        },
        _ => None,
    }
}

fn item_of<'a>(v: Option<&'a YamlValue>, i: usize) -> (r: Option<&'a YamlValue>)
    ensures
        opt_node(r) == item(opt_node(v), i as nat),
{
    let x = match v {
        None => {
            return None;
        },
        Some(x) => untag_exec(x),
    };
    match x {
        YamlValue::Sequence(s) => {
            if i < s.len() {
                Some(&s[i])
            } else {
                None
            }
        },
        YamlValue::Mapping(m) => {
            let ghost s = m@;
            let ghost target = item(opt_node(v), i as nat);
            assert(s.skip(0) =~= s);
            let mut k: usize = 0;
            while k < m.len()
                invariant
                    s == m@,
                    k <= s.len(),
                    target == lookup_index(s.skip(k as int), i as nat),
                    target == item(opt_node(v), i as nat),
                decreases s.len() - k,
            {
                assert(s.skip(k as int).drop_first() =~= s.skip(k as int + 1));
                let matched = match &m[k].0 {
                    YamlValue::Number(YamlNumber::PosInt(n)) => *n == i as u64,
                    _ => false,
                };
                if matched {
                    return Some(&m[k].1);
                }
                k = k + 1;
            }
            None
        },
        _ => None,
    }
}

fn text_of(v: Option<&YamlValue>) -> (r: Option<&String>)
    ensures
        match r {
            Some(s) => as_text(opt_node(v)) == Some(s@),
            None => as_text(opt_node(v)) is None,
        },
{
    match v {
        None => None,
        Some(x) => match untag_exec(x) {
            YamlValue::String(s) => Some(s),
            _ => None,
        },
    }
}

fn items_of(v: Option<&YamlValue>) -> (r: Option<&Vec<YamlValue>>)
    ensures
        match r {
            Some(s) => as_items(opt_node(v)) == Some(s@),
            None => as_items(opt_node(v)) is None,
        },
{
    match v {
        None => None,
        Some(x) => match untag_exec(x) {
            YamlValue::Sequence(s) => Some(s),
            _ => None,
        },
    }
}

fn is_map_exec(v: Option<&YamlValue>) -> (r: bool)
    ensures
        r == is_map(opt_node(v)),
{
    match v {
        None => false,
        Some(x) => match untag_exec(x) {
            YamlValue::Mapping(_) => true,
            _ => false,
        },
    }
}

/// The node an optional reference points to.
pub open spec fn opt_node(v: Option<&YamlValue>) -> Option<YamlValue> {
    match v {
        Some(x) => Some(*x),
        None => None,
    }
}

/// Parsed route: domain → (service_name, namespace)
pub struct EnvoyRoute {
    pub domain: String,
    pub service_name: String,
    pub namespace: String,
}

/// The view of a route: (domain, service name, namespace).
pub type RouteView = (Seq<char>, Seq<char>, Seq<char>);

/// The views of a list of routes.
pub open spec fn routes_view(s: Seq<EnvoyRoute>) -> Seq<RouteView> {
    s.map_values(|r: EnvoyRoute| (r.domain@, r.service_name@, r.namespace@))
}

/// The position of the first label equal to `svc`, if any.
pub open spec fn svc_label(parts: Seq<Seq<char>>) -> Option<int> {
    if exists|i: int| 0 <= i < parts.len() && #[trigger] parts[i] == "svc"@ {
        Some(choose|i: int| 0 <= i < parts.len() && #[trigger] parts[i] == "svc"@ && forall|j: int| 0 <= j < i ==> parts[j] != "svc"@)
    } else {
        None
    }
}

/// "service-b.default.svc.cluster.local" → Some(("service-b", "default")):
/// the two labels before the first label `svc`, when there are two.
pub open spec fn fqdn_service(host: Seq<char>) -> Option<(Seq<char>, Seq<char>)> {
    let parts = split_on(host, '.');
    match svc_label(parts) {
        None => None,
        Some(p) => if p < 2 {
            None
        } else {
            Some((parts[p - 2], parts[p - 1]))
        },
    }
}

/// "service-b.default.svc.cluster.local" → Some(("service-b", "default"))
pub fn svc_namespace_from_fqdn(host: &str) -> (r: Option<(String, String)>)
    ensures
        match r {
            Some((s, n)) => fqdn_service(host@) == Some((s@, n@)),
            None => fqdn_service(host@) is None,
        },
{
    let parts = split_text(host, '.');
    let ghost ps = split_on(host@, '.');
    let mut i: usize = 0;
    while i < parts.len()
        invariant
            views(parts@) == ps,
            ps == split_on(host@, '.'),
            i <= parts@.len(),
            forall|j: int| 0 <= j < i ==> ps[j] != "svc"@,
        decreases parts@.len() - i,
    {
        assert(parts@[i as int]@ == ps[i as int]);
        if same_text(parts[i].as_str(), "svc") {
            proof {
                let c = choose|k: int| 0 <= k < ps.len() && #[trigger] ps[k] == "svc"@ && forall|j: int| 0 <= j < k ==> ps[j] != "svc"@;
                assert(0 <= c < ps.len() && ps[c] == "svc"@);
                if c < i {
                } else if c > i {
                    assert(ps[i as int] == "svc"@);
                }
                assert(svc_label(ps) == Some(i as int));
            }
            if i < 2 {
                return None;
            }
            assert(parts@[i - 2]@ == ps[i - 2]);
            assert(parts@[i - 1]@ == ps[i - 1]);
            return Some((parts[i - 2].clone(), parts[i - 1].clone()));
        }
        i = i + 1;
    }
    None
}

/// A wildcard domain, which cannot serve as an exact lookup key.
pub open spec fn wildcard(d: Seq<char>) -> bool {
    d == "*"@ || (d.len() >= 2 && d[0] == '*' && d[1] == '.')
}

/// Cluster name → (service name, namespace).
pub type ClusterTable = Map<Seq<char>, (Seq<char>, Seq<char>)>;

/// The name of a cluster, when it has a non-empty one.
pub open spec fn cluster_name(c: YamlValue) -> Option<Seq<char>> {
    match as_text(field(Some(c), "name"@)) {
        Some(n) => if n.len() > 0 {
            Some(n)
        } else {
            None
        },
        None => None,
    }
}

/// The upstream address of a cluster's first endpoint, or the empty text.
pub open spec fn cluster_address(c: YamlValue) -> Seq<char> {
    let endpoints = field(field(Some(c), "load_assignment"@), "endpoints"@);
    let lb = item(field(item(endpoints, 0), "lb_endpoints"@), 0);
    text_or_empty(
        as_text(field(field(field(field(lb, "endpoint"@), "address"@), "socket_address"@), "address"@)),
    )
}

/// The first pass over the clusters: a route for each upstream FQDN that
/// names a Kubernetes service, and the cluster table (a later cluster of
/// the same name replaces an earlier one).
pub open spec fn clusters_pass(cs: Seq<YamlValue>) -> (Seq<RouteView>, ClusterTable)
    decreases cs.len(),
{
    if cs.len() == 0 {
        (Seq::empty(), Map::empty())
    } else {
        let (r, m) = clusters_pass(cs.drop_last());
        let c = cs.last();
        match cluster_name(c) {
            None => (r, m),
            Some(name) => {
                let addr = cluster_address(c);
                match fqdn_service(addr) {
                    None => (r, m),
                    Some((svc, ns)) => (r.push((addr, svc, ns)), m.insert(name, (svc, ns))),
                }
            },
        }
    }
}

/// The routes of each node of `s`, one after the other.
pub open spec fn concat_over(s: Seq<YamlValue>, f: spec_fn(YamlValue) -> Seq<RouteView>) -> Seq<RouteView>
    decreases s.len(),
{
    if s.len() == 0 {
        Seq::empty()
    } else {
        concat_over(s.drop_last(), f) + f(s.last())
    }
}

/// A domain of a virtual host: a route to the host's service unless it is
/// not a string or is a wildcard.
pub open spec fn domain_routes(d: YamlValue, target: (Seq<char>, Seq<char>)) -> Seq<RouteView> {
    match as_text(Some(d)) {
        Some(t) => if wildcard(t) {
            Seq::empty()
        } else {
            seq![(t, target.0, target.1)]
        },
        None => Seq::empty(),
    }
}

/// `domain_routes` for a fixed service.
pub open spec fn domain_fn(target: (Seq<char>, Seq<char>)) -> spec_fn(YamlValue) -> Seq<RouteView> {
    |d: YamlValue| domain_routes(d, target)
}

/// The cluster a virtual host's first route leads to, or the empty text.
pub open spec fn vhost_cluster(vh: YamlValue) -> Seq<char> {
    text_or_empty(as_text(field(field(item(field(Some(vh), "routes"@), 0), "route"@), "cluster"@)))
}

/// A virtual host: its domains, routed to the service of its cluster; none
/// when the cluster is unknown or the host lists no domains.
pub open spec fn vhost_routes(vh: YamlValue, m: ClusterTable) -> Seq<RouteView> {
    let cluster = vhost_cluster(vh);
    if !m.contains_key(cluster) {
        Seq::empty()
    } else {
        match as_items(field(Some(vh), "domains"@)) {
            None => Seq::empty(),
            Some(ds) => concat_over(ds, domain_fn(m[cluster])),
        }
    }
}

/// `vhost_routes` for a fixed cluster table.
pub open spec fn vhost_fn(m: ClusterTable) -> spec_fn(YamlValue) -> Seq<RouteView> {
    |vh: YamlValue| vhost_routes(vh, m)
}

/// The virtual hosts of a route configuration.
pub open spec fn config_routes(cfg: Option<YamlValue>, m: ClusterTable) -> Seq<RouteView> {
    match as_items(field(cfg, "virtual_hosts"@)) {
        None => Seq::empty(),
        Some(vhs) => concat_over(vhs, vhost_fn(m)),
    }
}

/// A filter: its route configuration lives under `typed_config` or
/// directly on the filter.
pub open spec fn filter_routes(f: YamlValue, m: ClusterTable) -> Seq<RouteView> {
    let typed = field(field(Some(f), "typed_config"@), "route_config"@);
    let direct = field(Some(f), "route_config"@);
    if is_map(typed) {
        config_routes(typed, m)
    } else if is_map(direct) {
        config_routes(direct, m)
    } else {
        Seq::empty()
    }
}

/// `filter_routes` for a fixed cluster table.
pub open spec fn filter_fn(m: ClusterTable) -> spec_fn(YamlValue) -> Seq<RouteView> {
    |f: YamlValue| filter_routes(f, m)
}

/// A filter chain: its filters.
pub open spec fn chain_routes(fc: YamlValue, m: ClusterTable) -> Seq<RouteView> {
    match as_items(field(Some(fc), "filters"@)) {
        None => Seq::empty(),
        Some(fs) => concat_over(fs, filter_fn(m)),
    }
}

/// `chain_routes` for a fixed cluster table.
pub open spec fn chain_fn(m: ClusterTable) -> spec_fn(YamlValue) -> Seq<RouteView> {
    |fc: YamlValue| chain_routes(fc, m)
}

/// A listener: its filter chains.
pub open spec fn listener_routes(l: YamlValue, m: ClusterTable) -> Seq<RouteView> {
    match as_items(field(Some(l), "filter_chains"@)) {
        None => Seq::empty(),
        Some(fcs) => concat_over(fcs, chain_fn(m)),
    }
}

/// `listener_routes` for a fixed cluster table.
pub open spec fn listener_fn(m: ClusterTable) -> spec_fn(YamlValue) -> Seq<RouteView> {
    |l: YamlValue| listener_routes(l, m)
}

/// The routes of a static Envoy configuration: those of the first pass,
/// then those of the listeners.
pub open spec fn envoy_routes(v: YamlValue) -> Seq<RouteView> {
    let resources = field(Some(v), "static_resources"@);
    let clusters = match as_items(field(resources, "clusters"@)) {
        Some(cs) => cs,
        None => Seq::empty(),
    };
    let (first, m) = clusters_pass(clusters);
    match as_items(field(resources, "listeners"@)) {
        None => first,
        Some(ls) => first + concat_over(ls, listener_fn(m)),
    }
}

proof fn lemma_take_step<T>(s: Seq<T>, i: int)
    requires
        0 <= i < s.len(),
    ensures
        s.take(i + 1).drop_last() == s.take(i),
        s.take(i + 1).last() == s[i],
        s.take(i + 1).len() == i + 1,
{
    assert(s.take(i + 1).drop_last() =~= s.take(i));
}

fn is_wildcard(d: &str) -> (r: bool)
    ensures
        r == wildcard(d@),
{
    let v = chars_of(d);
    proof {
        reveal_strlit("*");
    }
    if v.len() == 1 && v[0] == '*' {
        assert(d@ =~= "*"@);
        return true;
    }
    if v.len() >= 2 && v[0] == '*' && v[1] == '.' {
        return true;
    }
    assert(d@ != "*"@) by {
        if d@ == "*"@ {
            assert(v@[0] == '*');
        }
    }
    false
}

fn domain_routes_exec(ds: &Vec<YamlValue>, svc: &String, ns: &String) -> (r: Vec<EnvoyRoute>)
    ensures
        routes_view(r@) == concat_over(ds@, domain_fn((svc@, ns@))),
{
    let ghost f = domain_fn((svc@, ns@));
    let mut out: Vec<EnvoyRoute> = Vec::new();
    let mut i: usize = 0;
    while i < ds.len()
        invariant
            i <= ds@.len(),
            f == domain_fn((svc@, ns@)),
            routes_view(out@) == concat_over(ds@.take(i as int), f),
        decreases ds@.len() - i,
    {
        proof {
            lemma_take_step(ds@, i as int);
        }
        let ghost before = routes_view(out@);
        match text_of(Some(&ds[i])) {
            Some(t) => {
                if !is_wildcard(t.as_str()) {
                    out.push(EnvoyRoute { domain: t.clone(), service_name: svc.clone(), namespace: ns.clone() });
                    assert(routes_view(out@) =~= before + seq![(t@, svc@, ns@)]);
                } else {
                    assert(routes_view(out@) =~= before + Seq::<RouteView>::empty());
                }
            },
            None => {
                assert(routes_view(out@) =~= before + Seq::<RouteView>::empty());
            },
        }
        i = i + 1;
    }
    assert(ds@.take(ds@.len() as int) =~= ds@);
    out
}

/// Cluster table entries: (name, (service name, namespace)).
pub open spec fn table_entries(t: Seq<(String, (String, String))>) -> Seq<(Seq<char>, (Seq<char>, Seq<char>))> {
    t.map_values(|e: (String, (String, String))| (e.0@, (e.1.0@, e.1.1@)))
}

fn table_find(t: &Vec<(String, (String, String))>, name: &str) -> (r: Option<usize>)
    ensures
        match r {
            Some(i) => i < t@.len() && t@[i as int].0@ == name@,
            None => !crate::assoc::has_key(table_entries(t@), name@),
        },
{
    let mut i: usize = 0;
    while i < t.len()
        invariant
            i <= t@.len(),
            forall|j: int| 0 <= j < i ==> t@[j].0@ != name@,
        decreases t@.len() - i,
    {
        if same_text(t[i].0.as_str(), name) {
            return Some(i);
        }
        i = i + 1;
    }
    proof {
        let s = table_entries(t@);
        if crate::assoc::has_key(s, name@) {
            let j = choose|j: int| 0 <= j < s.len() && s[j].0 == name@;
            assert(t@[j].0@ == name@);
        }
    }
    None
}

fn table_insert(t: &mut Vec<(String, (String, String))>, name: String, svc: String, ns: String)
    requires
        crate::assoc::keys_unique(table_entries(old(t)@)),
    ensures
        crate::assoc::keys_unique(table_entries(final(t)@)),
        crate::assoc::as_map(table_entries(final(t)@)) == crate::assoc::as_map(
            table_entries(old(t)@),
        ).insert(name@, (svc@, ns@)),
{
    let ghost s0 = table_entries(t@);
    match table_find(t, name.as_str()) {
        Some(i) => {
            t.remove(i);
            proof {
                crate::assoc::lemma_as_map_remove(s0, i as int);
                assert(table_entries(t@) =~= s0.remove(i as int));
            }
        },
        None => {
            assert(crate::assoc::as_map(s0).remove(name@) =~= crate::assoc::as_map(s0));
        },
    }
    let ghost s1 = table_entries(t@);
    let ghost kv = name@;
    let ghost vv = (svc@, ns@);
    proof {
        assert(!crate::assoc::has_key(s1, kv)) by {
            if crate::assoc::has_key(s1, kv) {
                let j = choose|j: int| 0 <= j < s1.len() && s1[j].0 == kv;
                crate::assoc::lemma_as_map_index(s1, j);
            }
        }
    }
    t.push((name, (svc, ns)));
    proof {
        assert(table_entries(t@) =~= s1.push((kv, vv)));
        crate::assoc::lemma_as_map_push(s1, kv, vv);
        assert(crate::assoc::as_map(s0).remove(kv).insert(kv, vv) =~= crate::assoc::as_map(s0).insert(
            kv,
            vv,
        ));
    }
}

fn table_get<'a>(t: &'a Vec<(String, (String, String))>, name: &str) -> (r: Option<&'a (String, String)>)
    requires
        crate::assoc::keys_unique(table_entries(t@)),
    ensures
        match r {
            Some(v) => crate::assoc::as_map(table_entries(t@)).contains_key(name@)
                && crate::assoc::as_map(table_entries(t@))[name@] == (v.0@, v.1@),
            None => !crate::assoc::as_map(table_entries(t@)).contains_key(name@),
        },
{
    match table_find(t, name) {
        Some(i) => {
            proof {
                crate::assoc::lemma_as_map_index(table_entries(t@), i as int);
            }
            Some(&t[i].1)
        },
        None => None,
    }
}

fn vhost_routes_exec(vh: &YamlValue, t: &Vec<(String, (String, String))>) -> (r: Vec<EnvoyRoute>)
    requires
        crate::assoc::keys_unique(table_entries(t@)),
    ensures
        routes_view(r@) == vhost_routes(*vh, crate::assoc::as_map(table_entries(t@))),
{
    // Static Envoy config has exactly one upstream per virtual host,
    // so the first route's cluster is the only relevant one.
    let route = field_of(item_of(field_of(Some(vh), "routes"), 0), "route");
    let cluster = match text_of(field_of(route, "cluster")) {
        Some(c) => c.clone(),
        None => String::new(),
    };
    assert(cluster@ == vhost_cluster(*vh));
    let target = match table_get(t, cluster.as_str()) {
        Some(m) => m,
        None => {
            return Vec::new();
        },
    };
    match items_of(field_of(Some(vh), "domains")) {
        None => Vec::new(),
        Some(ds) => domain_routes_exec(ds, &target.0, &target.1),
    }
}

/// The routes of a list of virtual hosts.
fn vhosts_routes_exec(items: &Vec<YamlValue>, t: &Vec<(String, (String, String))>) -> (r: Vec<EnvoyRoute>)
    requires
        crate::assoc::keys_unique(table_entries(t@)),
    ensures
        routes_view(r@) == concat_over(items@, vhost_fn(crate::assoc::as_map(table_entries(t@)))),
{
    let ghost m = crate::assoc::as_map(table_entries(t@));
    let ghost f = vhost_fn(m);
    let mut out: Vec<EnvoyRoute> = Vec::new();
    let mut i: usize = 0;
    while i < items.len()
        invariant
            i <= items@.len(),
            crate::assoc::keys_unique(table_entries(t@)),
            m == crate::assoc::as_map(table_entries(t@)),
            f == vhost_fn(m),
            routes_view(out@) == concat_over(items@.take(i as int), f),
        decreases items@.len() - i,
    {
        proof {
            lemma_take_step(items@, i as int);
        }
        let ghost before = routes_view(out@);
        let mut more = vhost_routes_exec(&items[i], t);
        let ghost add = routes_view(more@);
        out.append(&mut more);
        assert(routes_view(out@) =~= before + add);
        i = i + 1;
    }
    assert(items@.take(items@.len() as int) =~= items@);
    out
}

fn filter_routes_exec(f: &YamlValue, t: &Vec<(String, (String, String))>) -> (r: Vec<EnvoyRoute>)
    requires
        crate::assoc::keys_unique(table_entries(t@)),
    ensures
        routes_view(r@) == filter_routes(*f, crate::assoc::as_map(table_entries(t@))),
{
    // Route config may live directly or under typed_config
    let typed = field_of(field_of(Some(f), "typed_config"), "route_config");
    let direct = field_of(Some(f), "route_config");
    let cfg = if is_map_exec(typed) {
        typed
    } else if is_map_exec(direct) {
        direct
    } else {
        return Vec::new();
    };
    match items_of(field_of(cfg, "virtual_hosts")) {
        None => Vec::new(),
        Some(vhs) => vhosts_routes_exec(vhs, t),
    }
}

/// The routes of a list of filters.
fn filters_routes_exec(items: &Vec<YamlValue>, t: &Vec<(String, (String, String))>) -> (r: Vec<EnvoyRoute>)
    requires
        crate::assoc::keys_unique(table_entries(t@)),
    ensures
        routes_view(r@) == concat_over(items@, filter_fn(crate::assoc::as_map(table_entries(t@)))),
{
    let ghost m = crate::assoc::as_map(table_entries(t@));
    let ghost f = filter_fn(m);
    let mut out: Vec<EnvoyRoute> = Vec::new();
    let mut i: usize = 0;
    while i < items.len()
        invariant
            i <= items@.len(),
            crate::assoc::keys_unique(table_entries(t@)),
            m == crate::assoc::as_map(table_entries(t@)),
            f == filter_fn(m),
            routes_view(out@) == concat_over(items@.take(i as int), f),
        decreases items@.len() - i,
    {
        proof {
            lemma_take_step(items@, i as int);
        }
        let ghost before = routes_view(out@);
        let mut more = filter_routes_exec(&items[i], t);
        let ghost add = routes_view(more@);
        out.append(&mut more);
        assert(routes_view(out@) =~= before + add);
        i = i + 1;
    }
    assert(items@.take(items@.len() as int) =~= items@);
    out
}

fn chain_routes_exec(fc: &YamlValue, t: &Vec<(String, (String, String))>) -> (r: Vec<EnvoyRoute>)
    requires
        crate::assoc::keys_unique(table_entries(t@)),
    ensures
        routes_view(r@) == chain_routes(*fc, crate::assoc::as_map(table_entries(t@))),
{
    match items_of(field_of(Some(fc), "filters")) {
        None => Vec::new(),
        Some(fs) => filters_routes_exec(fs, t),
    }
}

/// The routes of a list of filter chains.
fn chains_routes_exec(items: &Vec<YamlValue>, t: &Vec<(String, (String, String))>) -> (r: Vec<EnvoyRoute>)
    requires
        crate::assoc::keys_unique(table_entries(t@)),
    ensures
        routes_view(r@) == concat_over(items@, chain_fn(crate::assoc::as_map(table_entries(t@)))),
{
    let ghost m = crate::assoc::as_map(table_entries(t@));
    let ghost f = chain_fn(m);
    let mut out: Vec<EnvoyRoute> = Vec::new();
    let mut i: usize = 0;
    while i < items.len()
        invariant
            i <= items@.len(),
            crate::assoc::keys_unique(table_entries(t@)),
            m == crate::assoc::as_map(table_entries(t@)),
            f == chain_fn(m),
            routes_view(out@) == concat_over(items@.take(i as int), f),
        decreases items@.len() - i,
    {
        proof {
            lemma_take_step(items@, i as int);
        }
        let ghost before = routes_view(out@);
        let mut more = chain_routes_exec(&items[i], t);
        let ghost add = routes_view(more@);
        out.append(&mut more);
        assert(routes_view(out@) =~= before + add);
        i = i + 1;
    }
    assert(items@.take(items@.len() as int) =~= items@);
    out
}

fn listener_routes_exec(l: &YamlValue, t: &Vec<(String, (String, String))>) -> (r: Vec<EnvoyRoute>)
    requires
        crate::assoc::keys_unique(table_entries(t@)),
    ensures
        routes_view(r@) == listener_routes(*l, crate::assoc::as_map(table_entries(t@))),
{
    match items_of(field_of(Some(l), "filter_chains")) {
        None => Vec::new(),
        Some(fcs) => chains_routes_exec(fcs, t),
    }
}

/// The routes of a list of listeners.
fn listeners_routes_exec(items: &Vec<YamlValue>, t: &Vec<(String, (String, String))>) -> (r: Vec<EnvoyRoute>)
    requires
        crate::assoc::keys_unique(table_entries(t@)),
    ensures
        routes_view(r@) == concat_over(items@, listener_fn(crate::assoc::as_map(table_entries(t@)))),
{
    let ghost m = crate::assoc::as_map(table_entries(t@));
    let ghost f = listener_fn(m);
    let mut out: Vec<EnvoyRoute> = Vec::new();
    let mut i: usize = 0;
    while i < items.len()
        invariant
            i <= items@.len(),
            crate::assoc::keys_unique(table_entries(t@)),
            m == crate::assoc::as_map(table_entries(t@)),
            f == listener_fn(m),
            routes_view(out@) == concat_over(items@.take(i as int), f),
        decreases items@.len() - i,
    {
        proof {
            lemma_take_step(items@, i as int);
        }
        let ghost before = routes_view(out@);
        let mut more = listener_routes_exec(&items[i], t);
        let ghost add = routes_view(more@);
        out.append(&mut more);
        assert(routes_view(out@) =~= before + add);
        i = i + 1;
    }
    assert(items@.take(items@.len() as int) =~= items@);
    out
}

/// The first pass over the clusters: routes for upstream FQDNs, and the
/// cluster table.
fn clusters_pass_exec(cs: &Vec<YamlValue>) -> (r: (Vec<EnvoyRoute>, Vec<(String, (String, String))>))
    ensures
        crate::assoc::keys_unique(table_entries(r.1@)),
        (routes_view(r.0@), crate::assoc::as_map(table_entries(r.1@))) == clusters_pass(cs@),
{
    let mut routes: Vec<EnvoyRoute> = Vec::new();
    let mut table: Vec<(String, (String, String))> = Vec::new();
    proof {
        crate::assoc::lemma_empty_as_map(table_entries(table@));
        assert(routes_view(routes@) =~= Seq::<RouteView>::empty());
    }
    let mut i: usize = 0;
    while i < cs.len()
        invariant
            i <= cs@.len(),
            crate::assoc::keys_unique(table_entries(table@)),
            (routes_view(routes@), crate::assoc::as_map(table_entries(table@))) == clusters_pass(
                cs@.take(i as int),
            ),
        decreases cs@.len() - i,
    {
        proof {
            lemma_take_step(cs@, i as int);
        }
        let c = &cs[i];
        let name = match text_of(field_of(Some(c), "name")) {
            Some(n) => {
                if n.as_str().is_empty() {
                    None
                } else {
                    Some(n)
                }
            },
            None => None,
        };
        if let Some(name) = name {
            assert(cluster_name(*c) == Some(name@));
            let endpoints = field_of(field_of(Some(c), "load_assignment"), "endpoints");
            let lb = item_of(field_of(item_of(endpoints, 0), "lb_endpoints"), 0);
            let addr = match text_of(
                field_of(field_of(field_of(field_of(lb, "endpoint"), "address"), "socket_address"), "address"),
            ) {
                Some(a) => a.clone(),
                None => String::new(),
            };
            assert(addr@ == cluster_address(*c));
            if let Some((svc, ns)) = svc_namespace_from_fqdn(addr.as_str()) {
                // Insert the FQDN itself so lookups by full hostname resolve.
                let ghost before = routes_view(routes@);
                routes.push(EnvoyRoute { domain: addr, service_name: svc.clone(), namespace: ns.clone() });
                assert(routes_view(routes@) =~= before.push((addr@, svc@, ns@)));
                table_insert(&mut table, name.clone(), svc, ns);
            }
        }
        i = i + 1;
    }
    assert(cs@.take(cs@.len() as int) =~= cs@);
    (routes, table)
}

/// The routes of a parsed static Envoy configuration.
///
/// Two-pass strategy:
/// Pass 1 — `static_resources.clusters[]` → cluster_name → (service_name, namespace)
///   Uses the upstream endpoint FQDN (socket_address.address) to derive the K8s service.
///   Also inserts the raw FQDN as a key so lookups by full hostname work.
/// Pass 2 — listener route config virtual hosts → non-wildcard domains
///   Resolves each virtual host's upstream cluster name through the map from Pass 1.
pub fn routes_from_yaml(value: &YamlValue) -> (r: Vec<EnvoyRoute>)
    ensures
        routes_view(r@) == envoy_routes(*value),
{
    let resources = field_of(Some(value), "static_resources");
    let empty: Vec<YamlValue> = Vec::new();
    let clusters = match items_of(field_of(resources, "clusters")) {
        Some(cs) => cs,
        None => &empty,
    };
    let (mut routes, table) = clusters_pass_exec(clusters);
    match items_of(field_of(resources, "listeners")) {
        None => routes,
        Some(ls) => {
            let ghost first = routes_view(routes@);
            let mut more = listeners_routes_exec(ls, &table);
            let ghost add = routes_view(more@);
            routes.append(&mut more);
            assert(routes_view(routes@) =~= first + add);
            routes
        },
    }
}

/// Parses an Envoy static YAML config and returns domain→service mappings;
/// text that is not YAML gives no routes.
pub fn parse_envoy_routes(yaml_str: &str) -> (r: Vec<EnvoyRoute>)
    ensures
        match yaml_document(yaml_str@) {
            None => r@.len() == 0,
            Some(v) => routes_view(r@) == envoy_routes(v),
        },
{
    match parse_yaml(yaml_str) {
        None => Vec::new(),
        Some(v) => routes_from_yaml(&v),
    }
}

} // verus!
