//! The read path: the graph as the HTTP API and the gRPC query service
//! present it, one entry per node keyed `namespace/application`.

use vstd::prelude::*;
use crate::assoc::{
    as_map, from_entry, keys_unique, lemma_lists_exactly, listed, lists_exactly,
};
use crate::subgraph::{keys_view, spec_subgraph, SubgraphView};
use crate::topology::{
    flow_entries, flows_view, node_entries, Flow, FlowView, NodeDataView, NodeId, NodeKey,
    Topology,
};

verus! {

/// The text key of a node: `namespace/application`.
pub open spec fn node_text(k: NodeKey) -> Seq<char> {
    k.1 + seq!['/'] + k.0
}

/// Builds a consistent map key from a NodeId: "namespace/application_name".
pub fn node_key(node_id: &NodeId) -> (r: String)
    ensures
        r@ == node_text(node_id@),
{
    proof {
        reveal_strlit("/");
    }
    let mut key = node_id.namespace.clone();
    key.append("/");
    key.append(node_id.application_name.as_str());
    assert(key@ =~= node_text(node_id@));
    key
}

// ── HTTP API ────────────────────────────────────────────────────────────────

/// A node as the HTTP API shows it.
pub struct NodeDto {
    pub application_name: String,
    pub namespace: String,
    pub ip: String,
}

/// A flow as the HTTP API shows it.
pub struct FlowDto {
    pub source_application: String,
    pub destination_application: String,
    pub method: String,
    pub path: String,
}

/// The flows of one node.
pub struct FlowList {
    pub flows: Vec<FlowDto>,
}

/// The graph, or a part of it, as the HTTP API shows it.
pub struct TopologyResponse {
    pub nodes: Vec<(String, NodeDto)>,
    pub upstream: Vec<(String, FlowList)>,
    pub downstream: Vec<(String, FlowList)>,
}

/// Query parameters of the subgraph endpoint.
pub struct SubgraphParams {
    pub service: String,
    pub namespace: String,
    /// BFS depth from root; defaults to 1. Send 999 from the UI for "∞".
    pub depth: Option<u32>,
}

/// The view of a node entry: (key, (application, namespace, ip)).
pub type NodeEntryView = (Seq<char>, (Seq<char>, Seq<char>, Seq<char>));

/// The view of a flow: (source application, destination application,
/// method, path).
pub type FlowDtoView = (Seq<char>, Seq<char>, Seq<char>, Seq<char>);

/// The view of a flow-list entry: (key, flows).
pub type FlowListEntryView = (Seq<char>, Seq<FlowDtoView>);

/// How a flow is shown.
pub open spec fn flow_dto_of(f: FlowView) -> FlowDtoView {
    (f.source_node.0, f.destination_node.0, f.method, f.path)
}

/// How a node is shown.
pub open spec fn node_entry_of(k: NodeKey, d: NodeDataView) -> NodeEntryView {
    (node_text(k), (k.0, k.1, d.ip))
}

/// How the flows of a node are shown.
pub open spec fn flow_list_entry_of(k: NodeKey, fs: Seq<FlowView>) -> FlowListEntryView {
    (node_text(k), fs.map_values(|f: FlowView| flow_dto_of(f)))
}

/// `node_entry_of` as a function value.
pub open spec fn node_entry_fn() -> spec_fn(NodeKey, NodeDataView) -> NodeEntryView {
    |k: NodeKey, d: NodeDataView| node_entry_of(k, d)
}

/// `flow_list_entry_of` as a function value.
pub open spec fn flow_list_entry_fn() -> spec_fn(NodeKey, Seq<FlowView>) -> FlowListEntryView {
    |k: NodeKey, fs: Seq<FlowView>| flow_list_entry_of(k, fs)
}

/// The views of node entries.
pub open spec fn node_entries_view(s: Seq<(String, NodeDto)>) -> Seq<NodeEntryView> {
    s.map_values(|e: (String, NodeDto)| (e.0@, (e.1.application_name@, e.1.namespace@, e.1.ip@)))
}

/// The views of flows.
pub open spec fn flow_dtos_view(s: Seq<FlowDto>) -> Seq<FlowDtoView> {
    s.map_values(
        |f: FlowDto| (f.source_application@, f.destination_application@, f.method@, f.path@),
    )
}

/// The views of flow-list entries.
pub open spec fn flow_lists_view(s: Seq<(String, FlowList)>) -> Seq<FlowListEntryView> {
    s.map_values(|e: (String, FlowList)| (e.0@, flow_dtos_view(e.1.flows@)))
}

/// `s` lists each entry of `m` exactly once, made by `f`.
pub open spec fn lists_once<K, V, E>(s: Seq<E>, m: Map<K, V>, f: spec_fn(K, V) -> E) -> bool {
    &&& s.no_duplicates()
    &&& forall|i: int| 0 <= i < s.len() ==> from_entry(m, f, #[trigger] s[i])
    &&& forall|k: K| #[trigger] m.contains_key(k) ==> listed(s, m, f, k)
}

/// Converts a list of flows into its API form.
pub fn flow_list(flows: &Vec<Flow>) -> (r: FlowList)
    ensures
        flow_dtos_view(r.flows@) == flows_view(flows@).map_values(|f: FlowView| flow_dto_of(f)),
{
    let mut out: Vec<FlowDto> = Vec::new();
    let mut i: usize = 0;
    while i < flows.len()
        invariant
            i <= flows@.len(),
            out@.len() == i,
            forall|j: int| 0 <= j < i ==> #[trigger] flow_dtos_view(out@)[j] == flow_dto_of(flows@[j]@),
        decreases flows@.len() - i,
    {
        let f = &flows[i];
        let ghost before = flow_dtos_view(out@);
        out.push(
            FlowDto {
                source_application: f.source_node.application_name.clone(),
                destination_application: f.destination_node.application_name.clone(),
                method: f.method.clone(),
                path: f.path.clone(),
            },
        );
        assert(flow_dtos_view(out@) =~= before.push(flow_dto_of(flows@[i as int]@)));
        i = i + 1;
    }
    assert(flow_dtos_view(out@) =~= flows_view(flows@).map_values(|f: FlowView| flow_dto_of(f)));
    FlowList { flows: out }
}

fn node_entries_of(table: &Vec<(NodeId, crate::topology::NodeData)>) -> (r: Vec<(String, NodeDto)>)
    ensures
        r@.len() == table@.len(),
        forall|i: int|
            0 <= i < table@.len() ==> #[trigger] node_entries_view(r@)[i] == node_entry_of(
                node_entries(table@)[i].0,
                node_entries(table@)[i].1,
            ),
{
    let mut out: Vec<(String, NodeDto)> = Vec::new();
    let mut i: usize = 0;
    while i < table.len()
        invariant
            i <= table@.len(),
            out@.len() == i,
            forall|j: int|
                0 <= j < i ==> #[trigger] node_entries_view(out@)[j] == node_entry_of(
                    node_entries(table@)[j].0,
                    node_entries(table@)[j].1,
                ),
        decreases table@.len() - i,
    {
        let (id, data) = &table[i];
        let key = node_key(id);
        let ghost before = node_entries_view(out@);
        let ghost e = node_entry_of(node_entries(table@)[i as int].0, node_entries(table@)[i as int].1);
        out.push(
            (
                key,
                NodeDto {
                    application_name: id.application_name.clone(),
                    namespace: id.namespace.clone(),
                    ip: data.ip.clone(),
                },
            ),
        );
        assert(node_entries_view(out@) =~= before.push(e));
        i = i + 1;
    }
    out
}

fn flow_lists_of(table: &Vec<(NodeId, Vec<Flow>)>) -> (r: Vec<(String, FlowList)>)
    ensures
        r@.len() == table@.len(),
        forall|i: int|
            0 <= i < table@.len() ==> #[trigger] flow_lists_view(r@)[i] == flow_list_entry_of(
                flow_entries(table@)[i].0,
                flow_entries(table@)[i].1,
            ),
{
    let mut out: Vec<(String, FlowList)> = Vec::new();
    let mut i: usize = 0;
    while i < table.len()
        invariant
            i <= table@.len(),
            out@.len() == i,
            forall|j: int|
                0 <= j < i ==> #[trigger] flow_lists_view(out@)[j] == flow_list_entry_of(
                    flow_entries(table@)[j].0,
                    flow_entries(table@)[j].1,
                ),
        decreases table@.len() - i,
    {
        let (id, flows) = &table[i];
        let key = node_key(id);
        let list = flow_list(flows);
        let ghost before = flow_lists_view(out@);
        let ghost e = flow_list_entry_of(flow_entries(table@)[i as int].0, flow_entries(table@)[i as int].1);
        out.push((key, list));
        assert(flow_lists_view(out@) =~= before.push(e));
        i = i + 1;
    }
    out
}

/// The whole graph in its API form: one entry per node, per upstream list
/// and per downstream list.
pub fn topology_response(topology: &Topology) -> (r: TopologyResponse)
    requires
        topology.wf(),
    ensures
        lists_exactly(node_entries_view(r.nodes@), topology@.nodes, node_entry_fn()),
        lists_exactly(flow_lists_view(r.upstream@), topology@.upstream, flow_list_entry_fn()),
        lists_exactly(flow_lists_view(r.downstream@), topology@.downstream, flow_list_entry_fn()),
{
    let nt = topology.node_table();
    let ut = topology.upstream_table();
    let dt = topology.downstream_table();
    let nodes = node_entries_of(nt);
    let upstream = flow_lists_of(ut);
    let downstream = flow_lists_of(dt);
    proof {
        lemma_lists_exactly(node_entries(nt@), node_entries_view(nodes@), node_entry_fn());
        lemma_lists_exactly(flow_entries(ut@), flow_lists_view(upstream@), flow_list_entry_fn());
        lemma_lists_exactly(flow_entries(dt@), flow_lists_view(downstream@), flow_list_entry_fn());
    }
    TopologyResponse { nodes, upstream, downstream }
}

/// A subgraph in its API form: the subgraph's nodes that the graph knows,
/// and its upstream and downstream lists.
pub fn subgraph_response(topology: &Topology, params: &SubgraphParams) -> (r: TopologyResponse)
    requires
        topology.wf(),
    ensures
        ({
            let depth: u32 = match params.depth {
                Some(d) => d,
                None => 1,
            };
            let sub = spec_subgraph(topology@, (params.service@, params.namespace@), depth as nat);
            &&& lists_once(
                node_entries_view(r.nodes@),
                topology@.nodes.restrict(sub.nodes),
                node_entry_fn(),
            )
            &&& lists_exactly(flow_lists_view(r.upstream@), sub.upstream, flow_list_entry_fn())
            &&& lists_exactly(flow_lists_view(r.downstream@), sub.downstream, flow_list_entry_fn())
        }),
{
    let depth = match params.depth {
        Some(d) => d,
        None => 1,
    };
    let sg = topology.get_subgraph(params.service.as_str(), params.namespace.as_str(), depth);
    let ghost sub = spec_subgraph(topology@, (params.service@, params.namespace@), depth as nat);
    let ghost m = topology@.nodes.restrict(sub.nodes);
    let ghost ks = keys_view(sg.nodes@);
    let mut nodes: Vec<(String, NodeDto)> = Vec::new();
    let mut i: usize = 0;
    while i < sg.nodes.len()
        invariant
            topology.wf(),
            i <= sg.nodes@.len(),
            ks == keys_view(sg.nodes@),
            ks.no_duplicates(),
            m == topology@.nodes.restrict(Set::new(|k: NodeKey| ks.contains(k))),
            node_entries_view(nodes@).no_duplicates(),
            forall|j: int|
                0 <= j < nodes@.len() ==> from_entry(m, node_entry_fn(), #[trigger] node_entries_view(nodes@)[j])
                    && ks.take(i as int).contains((node_entries_view(nodes@)[j].1.0, node_entries_view(nodes@)[j].1.1)),
            forall|k: NodeKey|
                #[trigger] m.contains_key(k) && ks.take(i as int).contains(k) ==> listed(
                    node_entries_view(nodes@),
                    m,
                    node_entry_fn(),
                    k,
                ),
        decreases sg.nodes@.len() - i,
    {
        let id = &sg.nodes[i];
        let ghost k = id@;
        let ghost prev = ks.take(i as int);
        let ghost next = ks.take(i + 1);
        proof {
            assert(next =~= prev.push(k));
            assert(ks[i as int] == k);
        }
        match topology.node(id) {
            Some(data) => {
                let ghost before = node_entries_view(nodes@);
                let key = node_key(id);
                nodes.push(
                    (
                        key,
                        NodeDto {
                            application_name: id.application_name.clone(),
                            namespace: id.namespace.clone(),
                            ip: data.ip.clone(),
                        },
                    ),
                );
                let ghost e = node_entry_of(k, m[k]);
                proof {
                    assert(m.contains_key(k));
                    assert(node_entries_view(nodes@) =~= before.push(e));
                    // The new entry names a node not listed before.
                    assert(!before.contains(e)) by {
                        if before.contains(e) {
                            let j = choose|j: int| 0 <= j < before.len() && before[j] == e;
                            assert(prev.contains(k));
                            let p = choose|p: int| 0 <= p < i && prev[p] == k;
                            assert(ks[p] == ks[i as int]);
                        }
                    }
                    assert forall|j: int| 0 <= j < nodes@.len() implies from_entry(m, node_entry_fn(), #[trigger] node_entries_view(nodes@)[j])
                        && next.contains((node_entries_view(nodes@)[j].1.0, node_entries_view(nodes@)[j].1.1)) by {
                        if j < before.len() {
                            assert(node_entries_view(nodes@)[j] == before[j]);
                            let p = choose|p: int| 0 <= p < i && prev[p] == (before[j].1.0, before[j].1.1);
                            assert(next[p] == prev[p]);
                        } else {
                            assert(node_entries_view(nodes@)[j] == e);
                            assert(next[i as int] == k);
                        }
                    }
                    assert forall|k2: NodeKey| #[trigger] m.contains_key(k2) && next.contains(k2) implies listed(
                        node_entries_view(nodes@),
                        m,
                        node_entry_fn(),
                        k2,
                    ) by {
                        if k2 == k {
                            assert(node_entries_view(nodes@)[before.len() as int] == e);
                        } else {
                            let p = choose|p: int| 0 <= p < i + 1 && next[p] == k2;
                            assert(prev[p] == k2);
                            let j = choose|j: int| 0 <= j < before.len() && #[trigger] before[j] == node_entry_of(k2, m[k2]);
                            assert(node_entries_view(nodes@)[j] == before[j]);
                        }
                    }
                }
            },
            None => {
                proof {
                    assert(!m.contains_key(k));
                    assert forall|j: int| 0 <= j < nodes@.len() implies from_entry(m, node_entry_fn(), #[trigger] node_entries_view(nodes@)[j])
                        && next.contains((node_entries_view(nodes@)[j].1.0, node_entries_view(nodes@)[j].1.1)) by {
                        let p = choose|p: int| 0 <= p < i && prev[p] == (node_entries_view(nodes@)[j].1.0, node_entries_view(nodes@)[j].1.1);
                        assert(next[p] == prev[p]);
                    }
                    assert forall|k2: NodeKey| #[trigger] m.contains_key(k2) && next.contains(k2) implies listed(
                        node_entries_view(nodes@),
                        m,
                        node_entry_fn(),
                        k2,
                    ) by {
                        let p = choose|p: int| 0 <= p < i + 1 && next[p] == k2;
                        if p < i {
                            assert(prev[p] == k2);
                        }
                    }
                }
            },
        }
        i = i + 1;
    }
    proof {
        assert(ks.take(ks.len() as int) =~= ks);
        assert(sub.nodes =~= Set::new(|k: NodeKey| ks.contains(k)));
    }
    let upstream = flow_lists_of(&sg.upstream);
    let downstream = flow_lists_of(&sg.downstream);
    proof {
        lemma_lists_exactly(flow_entries(sg.upstream@), flow_lists_view(upstream@), flow_list_entry_fn());
        lemma_lists_exactly(flow_entries(sg.downstream@), flow_lists_view(downstream@), flow_list_entry_fn());
    }
    TopologyResponse { nodes, upstream, downstream }
}

/// Query params shared by both paginated endpoints: `?page=0&page_size=50`
/// Both fields are optional — defaults are applied in each handler.
pub struct PaginationParams {
    pub page: Option<u64>,
    pub page_size: Option<u64>,
}

/// The page and page size asked for, with the defaults and the cap applied:
/// page 0 by default, `default_size` items by default and at most `max_size`.
pub open spec fn window(params: PaginationParams, default_size: u64, max_size: u64) -> (u64, u64) {
    let page = match params.page {
        Some(p) => p,
        None => 0,
    };
    let asked = match params.page_size {
        Some(s) => s,
        None => default_size,
    };
    (page, if asked < max_size {
        asked
    } else {
        max_size
    })
}

fn page_window(params: &PaginationParams, default_size: u64, max_size: u64) -> (r: (u64, u64))
    ensures
        r == window(*params, default_size, max_size),
{
    let page = match params.page {
        Some(p) => p,
        None => 0,
    };
    let asked = match params.page_size {
        Some(s) => s,
        None => default_size,
    };
    let page_size = if asked < max_size {
        asked
    } else {
        max_size
    };
    (page, page_size)
}

/// The window of the Kubernetes events endpoint: 50 per page by default,
/// capped at 200 so a single request can't exhaust memory.
pub fn k8s_events_window(params: &PaginationParams) -> (r: (u64, u64))
    ensures
        r == window(*params, 50, 200),
{
    page_window(params, 50, 200)
}

/// The window of the network events endpoint: 100 per page by default,
/// capped at 500.
pub fn network_events_window(params: &PaginationParams) -> (r: (u64, u64))
    ensures
        r == window(*params, 100, 500),
{
    page_window(params, 100, 500)
}

} // verus!
