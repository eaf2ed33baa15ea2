//! The in-memory service dependency graph.
//!
//! Nodes are keyed by `(application_name, namespace)`. Every observed call is
//! a `Flow`, indexed twice: under its destination in `upstream` ("who calls
//! this service?") and under its source in `downstream` ("what does this
//! service call?").

use vstd::prelude::*;
use crate::assoc::{
    as_map, get_or_empty, has_key, keys_unique, lemma_as_map_index, lemma_as_map_push,
    lemma_as_map_remove, lemma_empty_as_map, lemma_as_map_map_values, lemma_as_map_len,
};

verus! {

/// The mathematical identity of a node: `(application_name, namespace)`.
pub type NodeKey = (Seq<char>, Seq<char>);

/// Uniquely identifies a service node. `application_name` temporarily holds a
/// raw IP when the pod cache hasn't resolved it to a service name yet.
#[derive(Debug, PartialEq, Eq, Hash)]
pub struct NodeId {
    pub application_name: String,
    pub namespace: String,
}

impl View for NodeId {
    type V = NodeKey;

    open spec fn view(&self) -> NodeKey {
        (self.application_name@, self.namespace@)
    }
}

impl Clone for NodeId {
    fn clone(&self) -> (r: Self)
        ensures
            r@ == self@,
    {
        NodeId {
            application_name: self.application_name.clone(),
            namespace: self.namespace.clone(),
        }
    }
}

impl NodeId {
    /// Builds a node identity from its two names.
    pub fn new(application_name: &str, namespace: &str) -> (r: NodeId)
        ensures
            r@ == (application_name@, namespace@),
    {
        NodeId {
            application_name: application_name.to_string(),
            namespace: namespace.to_string(),
        }
    }

    /// Whether two identities name the same node.
    pub fn same(&self, other: &NodeId) -> (r: bool)
        ensures
            r == (self@ == other@),
    {
        self.application_name == other.application_name && self.namespace == other.namespace
    }
}

/// The mathematical content of a `Flow`.
pub struct FlowView {
    pub source_node: NodeKey,
    pub destination_node: NodeKey,
    pub path: Seq<char>,
    pub method: Seq<char>,
}

/// One observed HTTP call. Deduplicated by (src, dst, path, method) before
/// being added to the graph.
#[derive(Debug, PartialEq, Eq)]
pub struct Flow {
    pub source_node: NodeId,
    pub destination_node: NodeId,
    pub path: String,
    pub method: String,
}

impl View for Flow {
    type V = FlowView;

    open spec fn view(&self) -> FlowView {
        FlowView {
            source_node: self.source_node@,
            destination_node: self.destination_node@,
            path: self.path@,
            method: self.method@,
        }
    }
}

impl Clone for Flow {
    fn clone(&self) -> (r: Self)
        ensures
            r@ == self@,
    {
        Flow {
            source_node: self.source_node.clone(),
            destination_node: self.destination_node.clone(),
            path: self.path.clone(),
            method: self.method.clone(),
        }
    }
}

impl Flow {
    /// Whether two flows are the same call (source, destination, path, method).
    pub fn same(&self, other: &Flow) -> (r: bool)
        ensures
            r == (self@ == other@),
    {
        self.source_node.same(&other.source_node) && self.destination_node.same(
            &other.destination_node,
        ) && self.path == other.path && self.method == other.method
    }
}

/// The views of a list of flows.
pub open spec fn flows_view(s: Seq<Flow>) -> Seq<FlowView> {
    s.map_values(|f: Flow| f@)
}

/// Whether `flows` holds a flow equal to `f`.
pub fn contains_flow(flows: &Vec<Flow>, f: &Flow) -> (r: bool)
    ensures
        r == flows_view(flows@).contains(f@),
{
    let mut i: usize = 0;
    while i < flows.len()
        invariant
            i <= flows.len(),
            forall|j: int| 0 <= j < i ==> flows@[j]@ != f@,
        decreases flows.len() - i,
    {
        if flows[i].same(f) {
            assert(flows_view(flows@)[i as int] == f@);
            return true;
        }
        i = i + 1;
    }
    assert(!flows_view(flows@).contains(f@)) by {
        if flows_view(flows@).contains(f@) {
            let j = choose|j: int| 0 <= j < flows_view(flows@).len() && flows_view(flows@)[j] == f@;
            assert(flows@[j]@ == f@);
        }
    }
    false
}

/// The mathematical content of a `K8sEvent`.
pub struct K8sEventView {
    pub timestamp: u64,
    pub resource_name: Seq<char>,
    pub resource_type: Seq<char>,
    pub event_type: Seq<char>,
    pub event_data: Seq<char>,
}

/// A Kubernetes resource event attached to a node.
#[derive(Debug)]
pub struct K8sEvent {
    pub timestamp: u64,
    pub resource_name: String,
    pub resource_type: String,
    pub event_type: String,
    pub event_data: String,
}

impl View for K8sEvent {
    type V = K8sEventView;

    open spec fn view(&self) -> K8sEventView {
        K8sEventView {
            timestamp: self.timestamp,
            resource_name: self.resource_name@,
            resource_type: self.resource_type@,
            event_type: self.event_type@,
            event_data: self.event_data@,
        }
    }
}

/// The mathematical content of `NodeData`.
pub struct NodeDataView {
    pub ip: Seq<char>,
    pub k8s_events: Seq<K8sEventView>,
}

/// What is known of a node besides its identity.
#[derive(Debug)]
pub struct NodeData {
    pub ip: String,
    /// K8s resource events (Deployment, Ingress, HPA, etc.) attached to this node.
    pub k8s_events: Vec<K8sEvent>,
}

impl View for NodeData {
    type V = NodeDataView;

    open spec fn view(&self) -> NodeDataView {
        NodeDataView { ip: self.ip@, k8s_events: self.k8s_events@.map_values(|e: K8sEvent| e@) }
    }
}

impl Default for NodeData {
    fn default() -> (r: Self)
        ensures
            r@.ip == Seq::<char>::empty(),
            r@.k8s_events == Seq::<K8sEventView>::empty(),
    {
        let r = NodeData { ip: String::new(), k8s_events: Vec::new() };
        assert(r@.k8s_events =~= Seq::<K8sEventView>::empty());
        r
    }
}

impl NodeData {
    /// Node data carrying an IP and no events.
    pub fn with_ip(ip: &str) -> (r: NodeData)
        ensures
            r@.ip == ip@,
            r@.k8s_events == Seq::<K8sEventView>::empty(),
    {
        let r = NodeData { ip: ip.to_string(), k8s_events: Vec::new() };
        assert(r@.k8s_events =~= Seq::<K8sEventView>::empty());
        r
    }
}

/// The keyed views of a node table.
pub open spec fn node_entries(e: Seq<(NodeId, NodeData)>) -> Seq<(NodeKey, NodeDataView)> {
    e.map_values(|x: (NodeId, NodeData)| (x.0@, x.1@))
}

/// The keyed views of a flow index.
pub open spec fn flow_entries(e: Seq<(NodeId, Vec<Flow>)>) -> Seq<(NodeKey, Seq<FlowView>)> {
    e.map_values(|x: (NodeId, Vec<Flow>)| (x.0@, flows_view(x.1@)))
}

/// The mathematical content of a `Topology`.
pub struct TopologyView {
    pub nodes: Map<NodeKey, NodeDataView>,
    pub upstream: Map<NodeKey, Seq<FlowView>>,
    pub downstream: Map<NodeKey, Seq<FlowView>>,
}

/// The service dependency graph.
pub struct Topology {
    nodes: Vec<(NodeId, NodeData)>,
    /// Indexed by destination — "who calls this service?"
    upstream: Vec<(NodeId, Vec<Flow>)>,
    /// Indexed by source — "what does this service call?"
    downstream: Vec<(NodeId, Vec<Flow>)>,
}

impl View for Topology {
    type V = TopologyView;

    closed spec fn view(&self) -> TopologyView {
        TopologyView {
            nodes: as_map(node_entries(self.nodes@)),
            upstream: as_map(flow_entries(self.upstream@)),
            downstream: as_map(flow_entries(self.downstream@)),
        }
    }
}

/// Appends `f` unless an equal flow is already listed.
pub open spec fn push_new(s: Seq<FlowView>, f: FlowView) -> Seq<FlowView> {
    if s.contains(f) {
        s
    } else {
        s.push(f)
    }
}

/// The graph after `add_node`: an existing node is kept as it is.
pub open spec fn spec_add_node(t: TopologyView, k: NodeKey, d: NodeDataView) -> TopologyView {
    if t.nodes.contains_key(k) {
        t
    } else {
        TopologyView { nodes: t.nodes.insert(k, d), ..t }
    }
}

/// The graph after `add_flow`: the flow is listed under its destination in
/// `upstream` and under its source in `downstream`, once each.
pub open spec fn spec_add_flow(t: TopologyView, f: FlowView) -> TopologyView {
    TopologyView {
        upstream: t.upstream.insert(
            f.destination_node,
            push_new(get_or_empty(t.upstream, f.destination_node), f),
        ),
        downstream: t.downstream.insert(
            f.source_node,
            push_new(get_or_empty(t.downstream, f.source_node), f),
        ),
        ..t
    }
}

/// The graph after `add_k8s_event`: the event is appended to an existing node only.
pub open spec fn spec_add_k8s_event(t: TopologyView, k: NodeKey, e: K8sEventView) -> TopologyView {
    if t.nodes.contains_key(k) {
        TopologyView {
            nodes: t.nodes.insert(
                k,
                NodeDataView { k8s_events: t.nodes[k].k8s_events.push(e), ..t.nodes[k] },
            ),
            ..t
        }
    } else {
        t
    }
}

/// Replaces the key `stale` by `res`.
pub open spec fn rename_key(k: NodeKey, stale: NodeKey, res: NodeKey) -> NodeKey {
    if k == stale {
        res
    } else {
        k
    }
}

/// Replaces `stale` by `res` at both ends of a flow.
pub open spec fn rename_flow(f: FlowView, stale: NodeKey, res: NodeKey) -> FlowView {
    FlowView {
        source_node: rename_key(f.source_node, stale, res),
        destination_node: rename_key(f.destination_node, stale, res),
        ..f
    }
}

/// Replaces `stale` by `res` in every flow of a list.
pub open spec fn rename_flows(s: Seq<FlowView>, stale: NodeKey, res: NodeKey) -> Seq<FlowView> {
    s.map_values(|f: FlowView| rename_flow(f, stale, res))
}

/// Moves the flows listed under `stale` to the end of the list under `res`.
pub open spec fn rekey(m: Map<NodeKey, Seq<FlowView>>, stale: NodeKey, res: NodeKey) -> Map<
    NodeKey,
    Seq<FlowView>,
> {
    if m.contains_key(stale) {
        let m1 = m.remove(stale);
        m1.insert(res, get_or_empty(m1, res) + m[stale])
    } else {
        m
    }
}

/// The namespace under which an unresolved IP node is recorded.
pub open spec fn unknown_namespace() -> Seq<char> {
    seq!['u', 'n', 'k', 'n', 'o', 'w', 'n']
}

/// The graph after `resolve_unknown_node(ip, app, ns)`: the node recorded
/// as `(ip, "unknown")`, if there is one, becomes `(app, ns)`; an existing
/// `(app, ns)` node keeps its data; the flow lists keyed by the stale node
/// are appended to those keyed by the resolved one; and every flow
/// endpoint naming the stale node now names the resolved one.
pub open spec fn spec_resolve(t: TopologyView, ip: Seq<char>, app: Seq<char>, ns: Seq<char>) -> TopologyView {
    let stale = (ip, unknown_namespace());
    let res = (app, ns);
    if !t.nodes.contains_key(stale) {
        t
    } else {
        TopologyView {
            nodes: if t.nodes.remove(stale).contains_key(res) {
                t.nodes.remove(stale)
            } else {
                t.nodes.remove(stale).insert(res, t.nodes[stale])
            },
            upstream: rekey(t.upstream, stale, res).map_values(
                |fs: Seq<FlowView>| rename_flows(fs, stale, res),
            ),
            downstream: rekey(t.downstream, stale, res).map_values(
                |fs: Seq<FlowView>| rename_flows(fs, stale, res),
            ),
        }
    }
}

/// The position of the entry keyed `key`, if there is one.
pub fn find_key<V>(entries: &Vec<(NodeId, V)>, key: &NodeId) -> (r: Option<usize>)
    ensures
        match r {
            Some(i) => i < entries@.len() && entries@[i as int].0@ == key@,
            None => forall|j: int| 0 <= j < entries@.len() ==> entries@[j].0@ != key@,
        },
{
    let mut i: usize = 0;
    while i < entries.len()
        invariant
            i <= entries@.len(),
            forall|j: int| 0 <= j < i ==> entries@[j].0@ != key@,
        decreases entries.len() - i,
    {
        if entries[i].0.same(key) {
            return Some(i);
        }
        i = i + 1;
    }
    None
}

proof fn lemma_flow_entries_remove(e: Seq<(NodeId, Vec<Flow>)>, i: int)
    requires
        0 <= i < e.len(),
    ensures
        flow_entries(e.remove(i)) == flow_entries(e).remove(i),
{
    assert(flow_entries(e.remove(i)) =~= flow_entries(e).remove(i));
}

proof fn lemma_flow_entries_push(e: Seq<(NodeId, Vec<Flow>)>, x: (NodeId, Vec<Flow>))
    ensures
        flow_entries(e.push(x)) == flow_entries(e).push((x.0@, flows_view(x.1@))),
{
    assert(flow_entries(e.push(x)) =~= flow_entries(e).push((x.0@, flows_view(x.1@))));
}

proof fn lemma_node_entries_remove(e: Seq<(NodeId, NodeData)>, i: int)
    requires
        0 <= i < e.len(),
    ensures
        node_entries(e.remove(i)) == node_entries(e).remove(i),
{
    assert(node_entries(e.remove(i)) =~= node_entries(e).remove(i));
}

proof fn lemma_node_entries_push(e: Seq<(NodeId, NodeData)>, x: (NodeId, NodeData))
    ensures
        node_entries(e.push(x)) == node_entries(e).push((x.0@, x.1@)),
{
    assert(node_entries(e.push(x)) =~= node_entries(e).push((x.0@, x.1@)));
}

/// A key that sits at `i` of a list with distinct keys is absent once `i` is removed.
proof fn lemma_unique_removed_key<K, V>(s: Seq<(K, V)>, i: int)
    requires
        keys_unique(s),
        0 <= i < s.len(),
    ensures
        !has_key(s.remove(i), s[i].0),
{
    let t = s.remove(i);
    if has_key(t, s[i].0) {
        let a = choose|a: int| 0 <= a < t.len() && t[a].0 == s[i].0;
        let a1 = if a < i {
            a
        } else {
            a + 1
        };
        assert(t[a] == s[a1]);
    }
}

/// Takes out the entry keyed `key` (if any) and returns its flows.
fn take_flows(entries: &mut Vec<(NodeId, Vec<Flow>)>, key: &NodeId) -> (r: Option<Vec<Flow>>)
    requires
        keys_unique(flow_entries(old(entries)@)),
    ensures
        keys_unique(flow_entries(final(entries)@)),
        as_map(flow_entries(final(entries)@)) == as_map(flow_entries(old(entries)@)).remove(key@),
        match r {
            Some(fl) => as_map(flow_entries(old(entries)@)).contains_key(key@) && flows_view(fl@)
                == as_map(flow_entries(old(entries)@))[key@],
            None => !as_map(flow_entries(old(entries)@)).contains_key(key@),
        },
{
    let ghost s = flow_entries(entries@);
    match find_key(entries, key) {
        Some(i) => {
            let (_k, fl) = entries.remove(i);
            proof {
                lemma_flow_entries_remove(old(entries)@, i as int);
                lemma_as_map_remove(s, i as int);
                lemma_as_map_index(s, i as int);
            }
            Some(fl)
        },
        None => {
            proof {
                assert(!has_key(s, key@));
                assert(as_map(s).remove(key@) =~= as_map(s));
            }
            None
        },
    }
}

/// Puts `flows` under `key`, which must be absent.
fn put_flows(entries: &mut Vec<(NodeId, Vec<Flow>)>, key: NodeId, flows: Vec<Flow>)
    requires
        keys_unique(flow_entries(old(entries)@)),
        !as_map(flow_entries(old(entries)@)).contains_key(key@),
    ensures
        keys_unique(flow_entries(final(entries)@)),
        as_map(flow_entries(final(entries)@)) == as_map(flow_entries(old(entries)@)).insert(
            key@,
            flows_view(flows@),
        ),
{
    let ghost kv = key@;
    let ghost fv = flows_view(flows@);
    proof {
        lemma_flow_entries_push(entries@, (key, flows));
    }
    entries.push((key, flows));
    proof {
        lemma_as_map_push(flow_entries(old(entries)@), kv, fv);
    }
}

/// Lists `flow` under `key` unless an equal flow is already there.
fn add_flow_to(entries: &mut Vec<(NodeId, Vec<Flow>)>, key: NodeId, flow: Flow)
    requires
        keys_unique(flow_entries(old(entries)@)),
    ensures
        keys_unique(flow_entries(final(entries)@)),
        as_map(flow_entries(final(entries)@)) == as_map(flow_entries(old(entries)@)).insert(
            key@,
            push_new(get_or_empty(as_map(flow_entries(old(entries)@)), key@), flow@),
        ),
{
    let ghost m0 = as_map(flow_entries(entries@));
    let taken = take_flows(entries, &key);
    let mut fl = match taken {
        Some(v) => v,
        None => Vec::new(),
    };
    assert(flows_view(fl@) == get_or_empty(m0, key@)) by {
        if taken.is_none() {
            assert(flows_view(fl@) =~= Seq::<FlowView>::empty());
        }
    }
    if !contains_flow(&fl, &flow) {
        let ghost before = fl@;
        let ghost fv = flow@;
        fl.push(flow);
        assert(flows_view(fl@) =~= flows_view(before).push(fv));
    }
    put_flows(entries, key, fl);
    assert(m0.remove(key@).insert(key@, push_new(get_or_empty(m0, key@), flow@)) =~= m0.insert(
        key@,
        push_new(get_or_empty(m0, key@), flow@),
    ));
}

impl Topology {
    /// The tables have distinct keys.
    pub closed spec fn wf(&self) -> bool {
        &&& keys_unique(node_entries(self.nodes@))
        &&& keys_unique(flow_entries(self.upstream@))
        &&& keys_unique(flow_entries(self.downstream@))
    }

    /// An empty graph.
    pub fn new() -> (r: Self)
        ensures
            r.wf(),
            r@.nodes == Map::<NodeKey, NodeDataView>::empty(),
            r@.upstream == Map::<NodeKey, Seq<FlowView>>::empty(),
            r@.downstream == Map::<NodeKey, Seq<FlowView>>::empty(),
    {
        let r = Topology { nodes: Vec::new(), upstream: Vec::new(), downstream: Vec::new() };
        proof {
            lemma_empty_as_map(node_entries(r.nodes@));
            lemma_empty_as_map(flow_entries(r.upstream@));
            lemma_empty_as_map(flow_entries(r.downstream@));
        }
        r
    }

    /// Adds a node unless one with the same identity already exists; the
    /// existing node's data is kept.
    pub fn add_node(&mut self, node: NodeId, node_data: NodeData)
        requires
            old(self).wf(),
        ensures
            final(self).wf(),
            final(self)@ == spec_add_node(old(self)@, node@, node_data@),
    {
        if find_key(&self.nodes, &node).is_some() {
            proof {
                let i = choose|i: int| 0 <= i < self.nodes@.len() && self.nodes@[i].0@ == node@;
                lemma_as_map_index(node_entries(self.nodes@), i);
            }
            return;
        }
        let ghost s = node_entries(self.nodes@);
        let ghost kv = node@;
        let ghost dv = node_data@;
        proof {
            lemma_node_entries_push(self.nodes@, (node, node_data));
            assert(!has_key(s, kv)) by {
                if has_key(s, kv) {
                    let j = choose|j: int| 0 <= j < s.len() && s[j].0 == kv;
                    assert(self.nodes@[j].0@ == kv);
                }
            }
        }
        self.nodes.push((node, node_data));
        proof {
            lemma_as_map_push(s, kv, dv);
        }
    }

    /// Records a flow under its destination in `upstream` and its source in
    /// `downstream`, once each.
    pub fn add_flow(&mut self, flow: Flow)
        requires
            old(self).wf(),
        ensures
            final(self).wf(),
            final(self)@ == spec_add_flow(old(self)@, flow@),
    {
        let dst = flow.destination_node.clone();
        let src = flow.source_node.clone();
        let copy = flow.clone();
        add_flow_to(&mut self.upstream, dst, copy);
        add_flow_to(&mut self.downstream, src, flow);
    }

    /// Attaches a Kubernetes event to an existing node; does nothing when the
    /// node is unknown.
    pub fn add_k8s_event(&mut self, node: NodeId, event: K8sEvent)
        requires
            old(self).wf(),
        ensures
            final(self).wf(),
            final(self)@ == spec_add_k8s_event(old(self)@, node@, event@),
    {
        let ghost s = node_entries(self.nodes@);
        match find_key(&self.nodes, &node) {
            Some(i) => {
                let ghost ev = event@;
                let (k, mut data) = self.nodes.remove(i);
                let ghost before = data@;
                data.k8s_events.push(event);
                assert(data@.k8s_events =~= before.k8s_events.push(ev));
                proof {
                    lemma_node_entries_remove(old(self).nodes@, i as int);
                    lemma_as_map_remove(s, i as int);
                    lemma_as_map_index(s, i as int);
                    lemma_unique_removed_key(s, i as int);
                    lemma_node_entries_push(self.nodes@, (k, data));
                }
                let ghost kv = k@;
                let ghost dv = data@;
                let ghost s1 = node_entries(self.nodes@);
                self.nodes.push((k, data));
                proof {
                    lemma_as_map_push(s1, kv, dv);
                    assert(as_map(s).remove(kv).insert(kv, dv) =~= as_map(s).insert(kv, dv));
                }
            },
            None => {
                proof {
                    assert(!as_map(s).contains_key(node@)) by {
                        if has_key(s, node@) {
                            let j = choose|j: int| 0 <= j < s.len() && s[j].0 == node@;
                            assert(self.nodes@[j].0@ == node@);
                        }
                    }
                }
            },
        }
    }

    /// The graph itself.
    pub fn get_topology(&self) -> (r: &Topology)
        ensures
            r == self,
    {
        self
    }
}

impl Flow {
    /// This flow with `stale` replaced by `res` at both ends.
    pub fn renamed(&self, stale: &NodeId, res: &NodeId) -> (r: Flow)
        ensures
            r@ == rename_flow(self@, stale@, res@),
    {
        let source_node = if self.source_node.same(stale) {
            res.clone()
        } else {
            self.source_node.clone()
        };
        let destination_node = if self.destination_node.same(stale) {
            res.clone()
        } else {
            self.destination_node.clone()
        };
        Flow { source_node, destination_node, path: self.path.clone(), method: self.method.clone() }
    }
}

/// Every flow of `flows` with `stale` replaced by `res`.
fn rename_all(flows: &Vec<Flow>, stale: &NodeId, res: &NodeId) -> (r: Vec<Flow>)
    ensures
        flows_view(r@) == rename_flows(flows_view(flows@), stale@, res@),
{
    let mut out: Vec<Flow> = Vec::new();
    let mut i: usize = 0;
    while i < flows.len()
        invariant
            i <= flows@.len(),
            out@.len() == i,
            forall|j: int| 0 <= j < i ==> #[trigger] out@[j]@ == rename_flow(flows@[j]@, stale@, res@),
        decreases flows.len() - i,
    {
        out.push(flows[i].renamed(stale, res));
        i = i + 1;
    }
    assert(flows_view(out@) =~= rename_flows(flows_view(flows@), stale@, res@));
    out
}

/// A copy of a flow index with `stale` replaced by `res` in every flow.
fn rename_index(entries: &Vec<(NodeId, Vec<Flow>)>, stale: &NodeId, res: &NodeId) -> (r: Vec<
    (NodeId, Vec<Flow>),
>)
    requires
        keys_unique(flow_entries(entries@)),
    ensures
        keys_unique(flow_entries(r@)),
        as_map(flow_entries(r@)) == as_map(flow_entries(entries@)).map_values(
            |fs: Seq<FlowView>| rename_flows(fs, stale@, res@),
        ),
{
    let ghost f = |fs: Seq<FlowView>| rename_flows(fs, stale@, res@);
    let mut out: Vec<(NodeId, Vec<Flow>)> = Vec::new();
    let mut i: usize = 0;
    while i < entries.len()
        invariant
            i <= entries@.len(),
            out@.len() == i,
            f == (|fs: Seq<FlowView>| rename_flows(fs, stale@, res@)),
            forall|j: int|
                0 <= j < i ==> #[trigger] flow_entries(out@)[j] == (
                    flow_entries(entries@)[j].0,
                    f(flow_entries(entries@)[j].1),
                ),
        decreases entries.len() - i,
    {
        let k = entries[i].0.clone();
        let fl = rename_all(&entries[i].1, stale, res);
        let ghost before = out@;
        out.push((k, fl));
        proof {
            assert(out@ == before.push((k, fl)));
            assert forall|j: int| 0 <= j < i + 1 implies #[trigger] flow_entries(out@)[j] == (
                flow_entries(entries@)[j].0,
                f(flow_entries(entries@)[j].1),
            ) by {
                if j < i {
                    assert(out@[j] == before[j]);
                    assert(flow_entries(out@)[j] == flow_entries(before)[j]);
                } else {
                    assert(out@[j] == (k, fl));
                    assert(flow_entries(out@)[j] == (k@, flows_view(fl@)));
                    assert(flow_entries(entries@)[j] == (entries@[j].0@, flows_view(entries@[j].1@)));
                    assert(f(flow_entries(entries@)[j].1) == rename_flows(flows_view(entries@[j].1@), stale@, res@));
                }
            }
        }
        i = i + 1;
    }
    proof {
        lemma_as_map_map_values(flow_entries(entries@), flow_entries(out@), f);
    }
    out
}

/// Moves the flows listed under `stale` to the end of those under `res`.
fn rekey_index(entries: &mut Vec<(NodeId, Vec<Flow>)>, stale: &NodeId, res: &NodeId)
    requires
        keys_unique(flow_entries(old(entries)@)),
    ensures
        keys_unique(flow_entries(final(entries)@)),
        as_map(flow_entries(final(entries)@)) == rekey(
            as_map(flow_entries(old(entries)@)),
            stale@,
            res@,
        ),
{
    let ghost m0 = as_map(flow_entries(entries@));
    match take_flows(entries, stale) {
        None => {
            assert(as_map(flow_entries(entries@)) =~= m0);
        },
        Some(mut moved) => {
            let ghost m1 = m0.remove(stale@);
            match take_flows(entries, res) {
                Some(mut existing) => {
                    let ghost e0 = existing@;
                    let ghost mv = moved@;
                    existing.append(&mut moved);
                    assert(flows_view(existing@) =~= flows_view(e0) + flows_view(mv));
                    put_flows(entries, res.clone(), existing);
                    assert(m1.remove(res@).insert(res@, get_or_empty(m1, res@) + m0[stale@])
                        =~= m1.insert(res@, get_or_empty(m1, res@) + m0[stale@]));
                },
                None => {
                    assert(get_or_empty(m1, res@) + m0[stale@] =~= m0[stale@]);
                    assert(m1.remove(res@) =~= m1);
                    put_flows(entries, res.clone(), moved);
                },
            }
        },
    }
}

impl Topology {
    /// When a pod-cache mapping arrives (ip → service/namespace), fixes any
    /// stale node that was created with the raw IP before the mapping
    /// existed: the node key and every flow reference are rewritten.
    pub fn resolve_unknown_node(&mut self, ip: &str, application_name: &str, namespace: &str)
        requires
            old(self).wf(),
        ensures
            final(self).wf(),
            final(self)@ == spec_resolve(old(self)@, ip@, application_name@, namespace@),
    {
        let unknown = "unknown";
        proof {
            reveal_strlit("unknown");
            assert(unknown@ =~= unknown_namespace());
        }
        let stale = NodeId::new(ip, unknown);
        let ghost s = node_entries(self.nodes@);
        let i = match find_key(&self.nodes, &stale) {
            Some(i) => i,
            None => {
                proof {
                    assert(!as_map(s).contains_key(stale@)) by {
                        if has_key(s, stale@) {
                            let j = choose|j: int| 0 <= j < s.len() && s[j].0 == stale@;
                            assert(self.nodes@[j].0@ == stale@);
                        }
                    }
                }
                return;
            },
        };
        let resolved = NodeId::new(application_name, namespace);
        let ghost t0 = self@;
        // 1. Move node data from the stale key to the resolved key, keeping
        //    a node that already exists under the resolved key.
        let (_k, data) = self.nodes.remove(i);
        proof {
            lemma_node_entries_remove(old(self).nodes@, i as int);
            lemma_as_map_remove(s, i as int);
            lemma_as_map_index(s, i as int);
        }
        let ghost s1 = node_entries(self.nodes@);
        match find_key(&self.nodes, &resolved) {
            Some(j) => {
                proof {
                    lemma_as_map_index(s1, j as int);
                }
            },
            None => {
                let ghost kv = resolved@;
                let ghost dv = data@;
                let key = resolved.clone();
                proof {
                    lemma_node_entries_push(self.nodes@, (key, data));
                    assert(!has_key(s1, kv)) by {
                        if has_key(s1, kv) {
                            let j = choose|j: int| 0 <= j < s1.len() && s1[j].0 == kv;
                            assert(self.nodes@[j].0@ == kv);
                        }
                    }
                }
                self.nodes.push((key, data));
                proof {
                    lemma_as_map_push(s1, kv, dv);
                }
            },
        }
        // 2./3. Re-key the flow indexes.
        rekey_index(&mut self.upstream, &stale, &resolved);
        rekey_index(&mut self.downstream, &stale, &resolved);
        // 4. Update flow references everywhere.
        let up = rename_index(&self.upstream, &stale, &resolved);
        let down = rename_index(&self.downstream, &stale, &resolved);
        self.upstream = up;
        self.downstream = down;
        assert(self@.nodes =~= spec_resolve(t0, ip@, application_name@, namespace@).nodes);
        assert(self@.upstream =~= spec_resolve(t0, ip@, application_name@, namespace@).upstream);
        assert(self@.downstream =~= spec_resolve(t0, ip@, application_name@, namespace@).downstream);
    }
}


impl Topology {
    /// Whether a node with this identity exists.
    pub fn contains_node(&self, id: &NodeId) -> (r: bool)
        requires
            self.wf(),
        ensures
            r == self@.nodes.contains_key(id@),
    {
        self.node(id).is_some()
    }

    /// The data of the node with this identity.
    pub fn node(&self, id: &NodeId) -> (r: Option<&NodeData>)
        requires
            self.wf(),
        ensures
            match r {
                Some(d) => self@.nodes.contains_key(id@) && d@ == self@.nodes[id@],
                None => !self@.nodes.contains_key(id@),
            },
    {
        let ghost s = node_entries(self.nodes@);
        match find_key(&self.nodes, id) {
            Some(i) => {
                proof {
                    lemma_as_map_index(s, i as int);
                }
                Some(&self.nodes[i].1)
            },
            None => {
                proof {
                    if has_key(s, id@) {
                        let j = choose|j: int| 0 <= j < s.len() && s[j].0 == id@;
                        assert(self.nodes@[j].0@ == id@);
                    }
                }
                None
            },
        }
    }

    /// The flows whose destination is this node ("who calls this service?").
    pub fn upstream_of(&self, id: &NodeId) -> (r: Option<&Vec<Flow>>)
        requires
            self.wf(),
        ensures
            match r {
                Some(fl) => self@.upstream.contains_key(id@) && flows_view(fl@) == self@.upstream[id@],
                None => !self@.upstream.contains_key(id@),
            },
    {
        lookup_flows(&self.upstream, id)
    }

    /// The flows whose source is this node ("what does this service call?").
    pub fn downstream_of(&self, id: &NodeId) -> (r: Option<&Vec<Flow>>)
        requires
            self.wf(),
        ensures
            match r {
                Some(fl) => self@.downstream.contains_key(id@) && flows_view(fl@)
                    == self@.downstream[id@],
                None => !self@.downstream.contains_key(id@),
            },
    {
        lookup_flows(&self.downstream, id)
    }

    /// The number of nodes.
    pub fn node_count(&self) -> (r: usize)
        requires
            self.wf(),
        ensures
            r == self@.nodes.len(),
    {
        proof {
            lemma_as_map_len(node_entries(self.nodes@));
            assert(node_entries(self.nodes@).len() == self.nodes@.len());
        }
        self.nodes.len()
    }

    /// All nodes with their data, one entry per node.
    pub fn node_table(&self) -> (r: &Vec<(NodeId, NodeData)>)
        requires
            self.wf(),
        ensures
            keys_unique(node_entries(r@)),
            as_map(node_entries(r@)) == self@.nodes,
    {
        &self.nodes
    }

    /// The upstream index, one entry per destination node.
    pub fn upstream_table(&self) -> (r: &Vec<(NodeId, Vec<Flow>)>)
        requires
            self.wf(),
        ensures
            keys_unique(flow_entries(r@)),
            as_map(flow_entries(r@)) == self@.upstream,
    {
        &self.upstream
    }

    /// The downstream index, one entry per source node.
    pub fn downstream_table(&self) -> (r: &Vec<(NodeId, Vec<Flow>)>)
        requires
            self.wf(),
        ensures
            keys_unique(flow_entries(r@)),
            as_map(flow_entries(r@)) == self@.downstream,
    {
        &self.downstream
    }
}

/// The flows listed under `key` in a flow index.
fn lookup_flows<'a>(entries: &'a Vec<(NodeId, Vec<Flow>)>, key: &NodeId) -> (r: Option<&'a Vec<Flow>>)
    requires
        keys_unique(flow_entries(entries@)),
    ensures
        match r {
            Some(fl) => as_map(flow_entries(entries@)).contains_key(key@) && flows_view(fl@) == as_map(
                flow_entries(entries@),
            )[key@],
            None => !as_map(flow_entries(entries@)).contains_key(key@),
        },
{
    let ghost s = flow_entries(entries@);
    match find_key(entries, key) {
        Some(i) => {
            proof {
                lemma_as_map_index(s, i as int);
            }
            Some(&entries[i].1)
        },
        None => {
            proof {
                if has_key(s, key@) {
                    let j = choose|j: int| 0 <= j < s.len() && s[j].0 == key@;
                    assert(entries@[j].0@ == key@);
                }
            }
            None
        },
    }
}

/// A copy of a list of flows.
pub fn copy_flows(flows: &Vec<Flow>) -> (r: Vec<Flow>)
    ensures
        flows_view(r@) == flows_view(flows@),
{
    let mut out: Vec<Flow> = Vec::new();
    let mut i: usize = 0;
    while i < flows.len()
        invariant
            i <= flows@.len(),
            out@.len() == i,
            forall|j: int| 0 <= j < i ==> #[trigger] out@[j]@ == flows@[j]@,
        decreases flows.len() - i,
    {
        out.push(flows[i].clone());
        i = i + 1;
    }
    assert(flows_view(out@) =~= flows_view(flows@));
    out
}

} // verus!
