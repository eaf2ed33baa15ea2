//! The graph as the gRPC query service returns it.

use vstd::prelude::*;
use std::sync::{Arc, RwLock};
use crate::assoc::{lemma_lists_exactly, lists_exactly};
use crate::query::{node_key, node_text};
use crate::topology::{flow_entries, flows_view, node_entries, Flow, FlowView, NodeDataView, NodeKey, Topology};

verus! {

#[verifier::external_type_specification]
#[verifier::external_body]
#[verifier::reject_recursive_types(T)]
pub struct OutsideRwLock<T: ?Sized>(RwLock<T>);

/// A node of the reply.
pub struct TopologyNode {
    pub service_name: String,
    pub namespace: String,
    pub ip: String,
}

/// A flow of the reply.
pub struct TopologyEdge {
    pub source_service: String,
    pub source_namespace: String,
    pub destination_service: String,
    pub destination_namespace: String,
    pub method: String,
    pub path: String,
}

/// The flows of one node.
pub struct FlowList {
    pub flows: Vec<TopologyEdge>,
}

/// The whole graph, keyed `namespace/service`.
pub struct GetTopologyResponse {
    pub nodes: Vec<(String, TopologyNode)>,
    pub upstream: Vec<(String, FlowList)>,
    pub downstream: Vec<(String, FlowList)>,
}

/// The view of an edge: (source service, source namespace, destination
/// service, destination namespace, method, path).
pub type EdgeView = (Seq<char>, Seq<char>, Seq<char>, Seq<char>, Seq<char>, Seq<char>);

/// How a flow is sent.
pub open spec fn edge_of(f: FlowView) -> EdgeView {
    (f.source_node.0, f.source_node.1, f.destination_node.0, f.destination_node.1, f.method, f.path)
}

/// The views of edges.
pub open spec fn edges_view(s: Seq<TopologyEdge>) -> Seq<EdgeView> {
    s.map_values(
        |e: TopologyEdge|
            (
                e.source_service@,
                e.source_namespace@,
                e.destination_service@,
                e.destination_namespace@,
                e.method@,
                e.path@,
            ),
    )
}

/// How a node is sent: (key, (service, namespace, ip)).
pub open spec fn reply_node_of(k: NodeKey, d: NodeDataView) -> (Seq<char>, (Seq<char>, Seq<char>, Seq<char>)) {
    (node_text(k), (k.0, k.1, d.ip))
}

/// How the flows of a node are sent.
pub open spec fn reply_flows_of(k: NodeKey, fs: Seq<FlowView>) -> (Seq<char>, Seq<EdgeView>) {
    (node_text(k), fs.map_values(|f: FlowView| edge_of(f)))
}

/// `reply_node_of` as a function value.
pub open spec fn reply_node_fn() -> spec_fn(NodeKey, NodeDataView) -> (Seq<char>, (Seq<char>, Seq<char>, Seq<char>)) {
    |k: NodeKey, d: NodeDataView| reply_node_of(k, d)
}

/// `reply_flows_of` as a function value.
pub open spec fn reply_flows_fn() -> spec_fn(NodeKey, Seq<FlowView>) -> (Seq<char>, Seq<EdgeView>) {
    |k: NodeKey, fs: Seq<FlowView>| reply_flows_of(k, fs)
}

/// The views of the node entries of a reply.
pub open spec fn reply_nodes_view(s: Seq<(String, TopologyNode)>) -> Seq<(Seq<char>, (Seq<char>, Seq<char>, Seq<char>))> {
    s.map_values(|e: (String, TopologyNode)| (e.0@, (e.1.service_name@, e.1.namespace@, e.1.ip@)))
}

/// The views of the flow entries of a reply.
pub open spec fn reply_flows_view(s: Seq<(String, FlowList)>) -> Seq<(Seq<char>, Seq<EdgeView>)> {
    s.map_values(|e: (String, FlowList)| (e.0@, edges_view(e.1.flows@)))
}

/// Converts a list of flows into its reply form.
pub fn to_flow_list(flows: &[Flow]) -> (r: FlowList)
    ensures
        edges_view(r.flows@) == flows_view(flows@).map_values(|f: FlowView| edge_of(f)),
{
    let mut out: Vec<TopologyEdge> = Vec::new();
    let mut i: usize = 0;
    while i < flows.len()
        invariant
            i <= flows@.len(),
            out@.len() == i,
            forall|j: int| 0 <= j < i ==> #[trigger] edges_view(out@)[j] == edge_of(flows@[j]@),
        decreases flows@.len() - i,
    {
        let flow = &flows[i];
        let ghost before = edges_view(out@);
        out.push(
            TopologyEdge {
                source_service: flow.source_node.application_name.clone(),
                source_namespace: flow.source_node.namespace.clone(),
                destination_service: flow.destination_node.application_name.clone(),
                destination_namespace: flow.destination_node.namespace.clone(),
                method: flow.method.clone(),
                path: flow.path.clone(),
            },
        );
        assert(edges_view(out@) =~= before.push(edge_of(flows@[i as int]@)));
        i = i + 1;
    }
    assert(edges_view(out@) =~= flows_view(flows@).map_values(|f: FlowView| edge_of(f)));
    FlowList { flows: out }
}

fn reply_flow_lists(table: &Vec<(crate::topology::NodeId, Vec<Flow>)>) -> (r: Vec<(String, FlowList)>)
    ensures
        r@.len() == table@.len(),
        forall|i: int|
            0 <= i < table@.len() ==> #[trigger] reply_flows_view(r@)[i] == reply_flows_of(
                flow_entries(table@)[i].0,
                flow_entries(table@)[i].1,
            ),
{
    let mut out: Vec<(String, FlowList)> = Vec::new();
    let mut i: usize = 0;
    while i < table.len()
        invariant
            i <= table@.len(),
            out@.len() == i,
            forall|j: int|
                0 <= j < i ==> #[trigger] reply_flows_view(out@)[j] == reply_flows_of(
                    flow_entries(table@)[j].0,
                    flow_entries(table@)[j].1,
                ),
        decreases table@.len() - i,
    {
        let (id, flows) = &table[i];
        let key = node_key(id);
        let list = to_flow_list(flows.as_slice());
        let ghost before = reply_flows_view(out@);
        let ghost e = reply_flows_of(flow_entries(table@)[i as int].0, flow_entries(table@)[i as int].1);
        out.push((key, list));
        assert(reply_flows_view(out@) =~= before.push(e));
        i = i + 1;
    }
    out
}

/// The whole graph in reply form: one entry per node, per upstream list
/// ("who calls this service?") and per downstream list ("what does this
/// service call?").
pub fn topology_reply(topology: &Topology) -> (r: GetTopologyResponse)
    requires
        topology.wf(),
    ensures
        lists_exactly(reply_nodes_view(r.nodes@), topology@.nodes, reply_node_fn()),
        lists_exactly(reply_flows_view(r.upstream@), topology@.upstream, reply_flows_fn()),
        lists_exactly(reply_flows_view(r.downstream@), topology@.downstream, reply_flows_fn()),
{
    let table = topology.node_table();
    let mut nodes: Vec<(String, TopologyNode)> = Vec::new();
    let mut i: usize = 0;
    while i < table.len()
        invariant
            i <= table@.len(),
            nodes@.len() == i,
            forall|j: int|
                0 <= j < i ==> #[trigger] reply_nodes_view(nodes@)[j] == reply_node_of(
                    node_entries(table@)[j].0,
                    node_entries(table@)[j].1,
                ),
        decreases table@.len() - i,
    {
        let (id, data) = &table[i];
        let key = node_key(id);
        let ghost before = reply_nodes_view(nodes@);
        let ghost e = reply_node_of(node_entries(table@)[i as int].0, node_entries(table@)[i as int].1);
        nodes.push(
            (
                key,
                TopologyNode {
                    service_name: id.application_name.clone(),
                    namespace: id.namespace.clone(),
                    ip: data.ip.clone(),
                },
            ),
        );
        assert(reply_nodes_view(nodes@) =~= before.push(e));
        i = i + 1;
    }
    let ut = topology.upstream_table();
    let dt = topology.downstream_table();
    let upstream = reply_flow_lists(ut);
    let downstream = reply_flow_lists(dt);
    proof {
        lemma_lists_exactly(node_entries(table@), reply_nodes_view(nodes@), reply_node_fn());
        lemma_lists_exactly(flow_entries(ut@), reply_flows_view(upstream@), reply_flows_fn());
        lemma_lists_exactly(flow_entries(dt@), reply_flows_view(downstream@), reply_flows_fn());
    }
    GetTopologyResponse { nodes, upstream, downstream }
}

/// Serves the graph to query clients.
pub struct QueryServer {
    topology: Arc<RwLock<Topology>>,
}

impl QueryServer {
    /// A server reading the shared graph.
    pub fn new(topology: Arc<RwLock<Topology>>) -> (r: Self)
        ensures
            r.graph() == topology,
    {
        QueryServer { topology }
    }

    /// The shared graph this server reads.
    pub closed spec fn graph(&self) -> Arc<RwLock<Topology>> {
        self.topology
    }

    /// The shared graph this server reads.
    pub fn topology(&self) -> (r: &Arc<RwLock<Topology>>)
        ensures
            *r == self.graph(),
    {
        &self.topology
    }
}

} // verus!
