//! Filtered views of the topology rooted at a single service.

use vstd::prelude::*;
use crate::assoc::{
    as_map, get_or_empty, has_key, keys_unique, lemma_as_map_index, lemma_as_map_push,
    lemma_empty_as_map,
};
use crate::topology::{
    copy_flows, flow_entries, flows_view, Flow, FlowView, NodeId, NodeKey, Topology, TopologyView,
};

verus! {

/// The identities of a list of nodes.
pub open spec fn keys_view(s: Seq<NodeId>) -> Seq<NodeKey> {
    s.map_values(|n: NodeId| n@)
}

/// The identities of a list of (parent, child) pairs.
pub open spec fn edges_view(s: Seq<(NodeId, NodeId)>) -> Seq<(NodeKey, NodeKey)> {
    s.map_values(|e: (NodeId, NodeId)| (e.0@, e.1@))
}

/// The state of a breadth-first search: the nodes seen so far in the order
/// they were found, the (parent, child) tree edges, and the nodes found at
/// the current level.
pub struct BfsState {
    pub visited: Seq<NodeKey>,
    pub edges: Seq<(NodeKey, NodeKey)>,
    pub next: Seq<NodeKey>,
}

/// Follows the flows of `parent` in order: each destination not yet seen is
/// marked seen, recorded with the tree edge `(parent, destination)`, and
/// queued for the next level.
pub open spec fn scan_flows(st: BfsState, parent: NodeKey, flows: Seq<FlowView>) -> BfsState
    decreases flows.len(),
{
    if flows.len() == 0 {
        st
    } else {
        let st1 = scan_flows(st, parent, flows.drop_last());
        let d = flows.last().destination_node;
        if st1.visited.contains(d) {
            st1
        } else {
            BfsState {
                visited: st1.visited.push(d),
                edges: st1.edges.push((parent, d)),
                next: st1.next.push(d),
            }
        }
    }
}

/// Scans the downstream flows of every frontier node, in frontier order.
pub open spec fn scan_frontier(
    st: BfsState,
    down: Map<NodeKey, Seq<FlowView>>,
    frontier: Seq<NodeKey>,
) -> BfsState
    decreases frontier.len(),
{
    if frontier.len() == 0 {
        st
    } else {
        let st1 = scan_frontier(st, down, frontier.drop_last());
        scan_flows(st1, frontier.last(), get_or_empty(down, frontier.last()))
    }
}

/// The search after `depth` levels from `root` along downstream flows; its
/// `next` is the frontier of the last level.
pub open spec fn bfs(down: Map<NodeKey, Seq<FlowView>>, root: NodeKey, depth: nat) -> BfsState
    decreases depth,
{
    if depth == 0 {
        BfsState { visited: seq![root], edges: Seq::empty(), next: seq![root] }
    } else {
        let prev = bfs(down, root, (depth - 1) as nat);
        scan_frontier(
            BfsState { visited: prev.visited, edges: prev.edges, next: Seq::empty() },
            down,
            prev.next,
        )
    }
}

/// The flows into `k` that are tree edges.
pub open spec fn keep_in(s: Seq<FlowView>, edges: Seq<(NodeKey, NodeKey)>, k: NodeKey) -> Seq<
    FlowView,
>
    decreases s.len(),
{
    if s.len() == 0 {
        s
    } else {
        let r = keep_in(s.drop_last(), edges, k);
        if edges.contains((s.last().source_node, k)) {
            r.push(s.last())
        } else {
            r
        }
    }
}

/// The flows out of `k` that are tree edges.
pub open spec fn keep_out(s: Seq<FlowView>, edges: Seq<(NodeKey, NodeKey)>, k: NodeKey) -> Seq<
    FlowView,
>
    decreases s.len(),
{
    if s.len() == 0 {
        s
    } else {
        let r = keep_out(s.drop_last(), edges, k);
        if edges.contains((k, s.last().destination_node)) {
            r.push(s.last())
        } else {
            r
        }
    }
}

/// The sources of a list of flows.
pub open spec fn flow_sources(s: Seq<FlowView>) -> Seq<NodeKey> {
    s.map_values(|f: FlowView| f.source_node)
}

/// Whether `k` has an entry in the subgraph's upstream index.
pub open spec fn shows_in(t: TopologyView, visited: Seq<NodeKey>, edges: Seq<(NodeKey, NodeKey)>, root: NodeKey, k: NodeKey) -> bool {
    if k == root {
        t.upstream.contains_key(root)
    } else {
        visited.contains(k) && keep_in(get_or_empty(t.upstream, k), edges, k).len() > 0
    }
}

/// The entry of `k` in the subgraph's upstream index.
pub open spec fn shown_in(t: TopologyView, edges: Seq<(NodeKey, NodeKey)>, root: NodeKey, k: NodeKey) -> Seq<FlowView> {
    if k == root {
        t.upstream[root]
    } else {
        keep_in(get_or_empty(t.upstream, k), edges, k)
    }
}

/// Whether `k` has an entry in the subgraph's downstream index.
pub open spec fn shows_out(t: TopologyView, visited: Seq<NodeKey>, edges: Seq<(NodeKey, NodeKey)>, root: NodeKey, k: NodeKey) -> bool {
    if k == root {
        t.downstream.contains_key(root)
    } else {
        visited.contains(k) && keep_out(get_or_empty(t.downstream, k), edges, k).len() > 0
    }
}

/// The entry of `k` in the subgraph's downstream index.
pub open spec fn shown_out(t: TopologyView, edges: Seq<(NodeKey, NodeKey)>, root: NodeKey, k: NodeKey) -> Seq<FlowView> {
    if k == root {
        t.downstream[root]
    } else {
        keep_out(get_or_empty(t.downstream, k), edges, k)
    }
}

/// The mathematical content of a `SubgraphResult`.
pub struct SubgraphView {
    pub nodes: Set<NodeKey>,
    pub upstream: Map<NodeKey, Seq<FlowView>>,
    pub downstream: Map<NodeKey, Seq<FlowView>>,
}

/// The subgraph of `t` rooted at `root`: empty when `root` is not a node;
/// otherwise the nodes found by a breadth-first search of `depth` levels
/// along downstream flows, plus the direct callers of `root`. The root keeps
/// all its incoming and outgoing flows; every other searched node keeps only
/// its search-tree flows, and only when it has some.
pub open spec fn spec_subgraph(t: TopologyView, root: NodeKey, depth: nat) -> SubgraphView {
    if !t.nodes.contains_key(root) {
        SubgraphView { nodes: Set::empty(), upstream: Map::empty(), downstream: Map::empty() }
    } else {
        let b = bfs(t.downstream, root, depth);
        SubgraphView {
            nodes: Set::new(
                |k: NodeKey|
                    b.visited.contains(k) || flow_sources(get_or_empty(t.upstream, root)).contains(k),
            ),
            upstream: Map::new(
                |k: NodeKey| shows_in(t, b.visited, b.edges, root, k),
                |k: NodeKey| shown_in(t, b.edges, root, k),
            ),
            downstream: Map::new(
                |k: NodeKey| shows_out(t, b.visited, b.edges, root, k),
                |k: NodeKey| shown_out(t, b.edges, root, k),
            ),
        }
    }
}

/// Filtered view of the topology rooted at a single service.
pub struct SubgraphResult {
    pub nodes: Vec<NodeId>,
    /// Keyed by destination node — "who calls this service?" (search-tree edges only for non-root).
    pub upstream: Vec<(NodeId, Vec<Flow>)>,
    /// Keyed by source node — "what does this service call?" (search-tree edges only for non-root).
    pub downstream: Vec<(NodeId, Vec<Flow>)>,
}

impl View for SubgraphResult {
    type V = SubgraphView;

    open spec fn view(&self) -> SubgraphView {
        SubgraphView {
            nodes: Set::new(|k: NodeKey| keys_view(self.nodes@).contains(k)),
            upstream: as_map(flow_entries(self.upstream@)),
            downstream: as_map(flow_entries(self.downstream@)),
        }
    }
}

/// Whether `id` is listed in `ids`.
pub fn contains_id(ids: &Vec<NodeId>, id: &NodeId) -> (r: bool)
    ensures
        r == keys_view(ids@).contains(id@),
{
    let mut i: usize = 0;
    while i < ids.len()
        invariant
            i <= ids@.len(),
            forall|j: int| 0 <= j < i ==> ids@[j]@ != id@,
        decreases ids.len() - i,
    {
        if ids[i].same(id) {
            assert(keys_view(ids@)[i as int] == id@);
            return true;
        }
        i = i + 1;
    }
    proof {
        if keys_view(ids@).contains(id@) {
            let j = choose|j: int| 0 <= j < keys_view(ids@).len() && keys_view(ids@)[j] == id@;
            assert(ids@[j]@ == id@);
        }
    }
    false
}

/// Whether the pair `(a, b)` is listed in `edges`.
pub fn contains_edge(edges: &Vec<(NodeId, NodeId)>, a: &NodeId, b: &NodeId) -> (r: bool)
    ensures
        r == edges_view(edges@).contains((a@, b@)),
{
    let mut i: usize = 0;
    while i < edges.len()
        invariant
            i <= edges@.len(),
            forall|j: int| 0 <= j < i ==> (edges@[j].0@, edges@[j].1@) != (a@, b@),
        decreases edges.len() - i,
    {
        if edges[i].0.same(a) && edges[i].1.same(b) {
            assert(edges_view(edges@)[i as int] == (a@, b@));
            return true;
        }
        i = i + 1;
    }
    proof {
        if edges_view(edges@).contains((a@, b@)) {
            let j = choose|j: int|
                0 <= j < edges_view(edges@).len() && edges_view(edges@)[j] == (a@, b@);
            assert((edges@[j].0@, edges@[j].1@) == (a@, b@));
        }
    }
    false
}

/// The search state held in three vectors.
pub open spec fn state_of(v: Seq<NodeId>, e: Seq<(NodeId, NodeId)>, n: Seq<NodeId>) -> BfsState {
    BfsState { visited: keys_view(v), edges: edges_view(e), next: keys_view(n) }
}

/// Scans the flows of one frontier node.
fn scan_node(
    visited: &mut Vec<NodeId>,
    edges: &mut Vec<(NodeId, NodeId)>,
    next: &mut Vec<NodeId>,
    parent: &NodeId,
    flows: &Vec<Flow>,
)
    ensures
        state_of(final(visited)@, final(edges)@, final(next)@) == scan_flows(
            state_of(old(visited)@, old(edges)@, old(next)@),
            parent@,
            flows_view(flows@),
        ),
{
    let ghost st0 = state_of(visited@, edges@, next@);
    let ghost fv = flows_view(flows@);
    let mut k: usize = 0;
    assert(fv.take(0) =~= Seq::<FlowView>::empty());
    while k < flows.len()
        invariant
            k <= flows@.len(),
            fv == flows_view(flows@),
            state_of(visited@, edges@, next@) == scan_flows(st0, parent@, fv.take(k as int)),
        decreases flows.len() - k,
    {
        let d = &flows[k].destination_node;
        assert(fv.take(k + 1).drop_last() =~= fv.take(k as int));
        assert(fv.take(k + 1).last() == flows@[k as int]@);
        if !contains_id(visited, d) {
            let ghost v0 = visited@;
            let ghost e0 = edges@;
            let ghost n0 = next@;
            visited.push(d.clone());
            edges.push((parent.clone(), d.clone()));
            next.push(d.clone());
            assert(keys_view(visited@) =~= keys_view(v0).push(d@));
            assert(edges_view(edges@) =~= edges_view(e0).push((parent@, d@)));
            assert(keys_view(next@) =~= keys_view(n0).push(d@));
        }
        k = k + 1;
    }
    assert(fv.take(flows@.len() as int) =~= fv);
}

/// Scanning no flows changes nothing.
proof fn lemma_scan_flows_empty(st: BfsState, p: NodeKey, s: Seq<FlowView>)
    requires
        s.len() == 0,
    ensures
        scan_flows(st, p, s) == st,
{
}

/// Once the frontier is empty the search no longer changes.
pub proof fn lemma_bfs_stable(down: Map<NodeKey, Seq<FlowView>>, root: NodeKey, n: nat, m: nat)
    requires
        bfs(down, root, n).next.len() == 0,
        n <= m,
    ensures
        bfs(down, root, m) == bfs(down, root, n),
    decreases m - n,
{
    if n < m {
        lemma_bfs_stable(down, root, n, (m - 1) as nat);
        let prev = bfs(down, root, (m - 1) as nat);
        assert(scan_frontier(
            BfsState { visited: prev.visited, edges: prev.edges, next: Seq::empty() },
            down,
            prev.next,
        ) == BfsState { visited: prev.visited, edges: prev.edges, next: Seq::<NodeKey>::empty() });
        assert(bfs(down, root, n).next =~= Seq::<NodeKey>::empty());
    }
}

/// Scanning flows never lists a node twice.
proof fn lemma_scan_flows_no_dup(st: BfsState, p: NodeKey, s: Seq<FlowView>)
    requires
        st.visited.no_duplicates(),
    ensures
        scan_flows(st, p, s).visited.no_duplicates(),
    decreases s.len(),
{
    if s.len() > 0 {
        lemma_scan_flows_no_dup(st, p, s.drop_last());
    }
}

proof fn lemma_scan_frontier_no_dup(st: BfsState, down: Map<NodeKey, Seq<FlowView>>, f: Seq<NodeKey>)
    requires
        st.visited.no_duplicates(),
    ensures
        scan_frontier(st, down, f).visited.no_duplicates(),
    decreases f.len(),
{
    if f.len() > 0 {
        lemma_scan_frontier_no_dup(st, down, f.drop_last());
        lemma_scan_flows_no_dup(
            scan_frontier(st, down, f.drop_last()),
            f.last(),
            get_or_empty(down, f.last()),
        );
    }
}

/// The search never lists a node twice.
pub proof fn lemma_bfs_no_dup(down: Map<NodeKey, Seq<FlowView>>, root: NodeKey, n: nat)
    ensures
        bfs(down, root, n).visited.no_duplicates(),
    decreases n,
{
    if n > 0 {
        lemma_bfs_no_dup(down, root, (n - 1) as nat);
        let prev = bfs(down, root, (n - 1) as nat);
        lemma_scan_frontier_no_dup(
            BfsState { visited: prev.visited, edges: prev.edges, next: Seq::empty() },
            down,
            prev.next,
        );
    }
}

/// The tree-edge flows into `k`, in order.
fn tree_in(flows: &Vec<Flow>, edges: &Vec<(NodeId, NodeId)>, k: &NodeId) -> (r: Vec<Flow>)
    ensures
        flows_view(r@) == keep_in(flows_view(flows@), edges_view(edges@), k@),
{
    let ghost fv = flows_view(flows@);
    let ghost ev = edges_view(edges@);
    let mut out: Vec<Flow> = Vec::new();
    let mut i: usize = 0;
    assert(fv.take(0) =~= Seq::<FlowView>::empty());
    assert(flows_view(out@) =~= Seq::<FlowView>::empty());
    while i < flows.len()
        invariant
            i <= flows@.len(),
            fv == flows_view(flows@),
            ev == edges_view(edges@),
            flows_view(out@) == keep_in(fv.take(i as int), ev, k@),
        decreases flows.len() - i,
    {
        assert(fv.take(i + 1).drop_last() =~= fv.take(i as int));
        assert(fv.take(i + 1).last() == flows@[i as int]@);
        if contains_edge(edges, &flows[i].source_node, k) {
            let ghost before = out@;
            out.push(flows[i].clone());
            assert(flows_view(out@) =~= flows_view(before).push(flows@[i as int]@));
        }
        i = i + 1;
    }
    assert(fv.take(flows@.len() as int) =~= fv);
    out
}

/// The tree-edge flows out of `k`, in order.
fn tree_out(flows: &Vec<Flow>, edges: &Vec<(NodeId, NodeId)>, k: &NodeId) -> (r: Vec<Flow>)
    ensures
        flows_view(r@) == keep_out(flows_view(flows@), edges_view(edges@), k@),
{
    let ghost fv = flows_view(flows@);
    let ghost ev = edges_view(edges@);
    let mut out: Vec<Flow> = Vec::new();
    let mut i: usize = 0;
    assert(fv.take(0) =~= Seq::<FlowView>::empty());
    assert(flows_view(out@) =~= Seq::<FlowView>::empty());
    while i < flows.len()
        invariant
            i <= flows@.len(),
            fv == flows_view(flows@),
            ev == edges_view(edges@),
            flows_view(out@) == keep_out(fv.take(i as int), ev, k@),
        decreases flows.len() - i,
    {
        assert(fv.take(i + 1).drop_last() =~= fv.take(i as int));
        assert(fv.take(i + 1).last() == flows@[i as int]@);
        if contains_edge(edges, k, &flows[i].destination_node) {
            let ghost before = out@;
            out.push(flows[i].clone());
            assert(flows_view(out@) =~= flows_view(before).push(flows@[i as int]@));
        }
        i = i + 1;
    }
    assert(fv.take(flows@.len() as int) =~= fv);
    out
}


/// Lists `x` after `s`; the membership of the result.
proof fn lemma_push_contains<T>(s: Seq<T>, x: T)
    ensures
        forall|k: T| #[trigger] s.push(x).contains(k) <==> s.contains(k) || k == x,
        s.no_duplicates() && !s.contains(x) ==> s.push(x).no_duplicates(),
{
    assert forall|k: T| #[trigger] s.push(x).contains(k) <==> s.contains(k) || k == x by {
        if s.push(x).contains(k) {
            let j = choose|j: int| 0 <= j < s.push(x).len() && s.push(x)[j] == k;
            if j < s.len() {
                assert(s[j] == k);
            }
        }
        if s.contains(k) {
            let j = choose|j: int| 0 <= j < s.len() && s[j] == k;
            assert(s.push(x)[j] == k);
        }
        if k == x {
            assert(s.push(x)[s.len() as int] == x);
        }
    }
    if s.no_duplicates() && !s.contains(x) {
        assert forall|a: int, b: int|
            0 <= a < s.push(x).len() && 0 <= b < s.push(x).len() && a != b implies s.push(x)[a]
            != s.push(x)[b] by {
            if a == s.len() {
                assert(s.contains(s[b]));
            } else if b == s.len() {
                assert(s.contains(s[a]));
            }
        }
    }
}

/// Adds the sources of `inflows` that are not yet listed.
fn add_callers(all: &mut Vec<NodeId>, inflows: &Vec<Flow>)
    requires
        keys_view(old(all)@).no_duplicates(),
    ensures
        keys_view(final(all)@).no_duplicates(),
        forall|k: NodeKey|
            #[trigger] keys_view(final(all)@).contains(k) <==> keys_view(old(all)@).contains(k)
                || flow_sources(flows_view(inflows@)).contains(k),
{
    let ghost src = flow_sources(flows_view(inflows@));
    let ghost a0 = keys_view(all@);
    let mut i: usize = 0;
    while i < inflows.len()
        invariant
            i <= inflows@.len(),
            src == flow_sources(flows_view(inflows@)),
            keys_view(all@).no_duplicates(),
            forall|k: NodeKey|
                #[trigger] keys_view(all@).contains(k) <==> a0.contains(k) || src.take(i as int).contains(k),
        decreases inflows.len() - i,
    {
        let ghost before = keys_view(all@);
        proof {
            lemma_push_contains(src.take(i as int), src[i as int]);
            assert(src.take(i + 1) =~= src.take(i as int).push(src[i as int]));
            assert(src[i as int] == inflows@[i as int].source_node@);
        }
        if !contains_id(all, &inflows[i].source_node) {
            let ghost x = inflows@[i as int].source_node@;
            all.push(inflows[i].source_node.clone());
            proof {
                assert(keys_view(all@) =~= before.push(x));
                lemma_push_contains(before, x);
            }
        }
        i = i + 1;
    }
    assert(src.take(inflows@.len() as int) =~= src);
}

/// The subgraph's upstream index.
fn visible_in(t: &Topology, root: &NodeId, visited: &Vec<NodeId>, edges: &Vec<(NodeId, NodeId)>) -> (r: Vec<
    (NodeId, Vec<Flow>),
>)
    requires
        t.wf(),
        keys_view(visited@).no_duplicates(),
    ensures
        keys_unique(flow_entries(r@)),
        forall|k: NodeKey|
            #[trigger] as_map(flow_entries(r@)).contains_key(k) <==> shows_in(
                t@,
                keys_view(visited@),
                edges_view(edges@),
                root@,
                k,
            ),
        forall|k: NodeKey|
            #[trigger] as_map(flow_entries(r@)).contains_key(k) ==> as_map(flow_entries(r@))[k]
                == shown_in(t@, edges_view(edges@), root@, k),
{
    let ghost vk = keys_view(visited@);
    let ghost ev = edges_view(edges@);
    let mut out: Vec<(NodeId, Vec<Flow>)> = Vec::new();
    proof {
        lemma_empty_as_map(flow_entries(out@));
    }
    match t.upstream_of(root) {
        Some(inflows) => {
            let ghost kv = root@;
            let fl = copy_flows(inflows);
            let ghost fv = flows_view(fl@);
            let key = root.clone();
            proof {
                assert(flow_entries(out@.push((key, fl))) =~= flow_entries(out@).push((kv, fv)));
            }
            out.push((key, fl));
            proof {
                lemma_as_map_push(Seq::<(NodeKey, Seq<FlowView>)>::empty(), kv, fv);
                assert(flow_entries(out@) =~= Seq::<(NodeKey, Seq<FlowView>)>::empty().push((kv, fv)));
            }
        },
        None => {},
    }
    let mut i: usize = 0;
    while i < visited.len()
        invariant
            t.wf(),
            i <= visited@.len(),
            vk == keys_view(visited@),
            ev == edges_view(edges@),
            vk.no_duplicates(),
            keys_unique(flow_entries(out@)),
            forall|k: NodeKey|
                #[trigger] as_map(flow_entries(out@)).contains_key(k) <==> (if k == root@ {
                    t@.upstream.contains_key(root@)
                } else {
                    vk.take(i as int).contains(k) && keep_in(get_or_empty(t@.upstream, k), ev, k).len()
                        > 0
                }),
            forall|k: NodeKey|
                #[trigger] as_map(flow_entries(out@)).contains_key(k) ==> as_map(flow_entries(out@))[k]
                    == shown_in(t@, ev, root@, k),
        decreases visited.len() - i,
    {
        let node = &visited[i];
        proof {
            lemma_push_contains(vk.take(i as int), vk[i as int]);
            assert(vk.take(i + 1) =~= vk.take(i as int).push(vk[i as int]));
            assert(vk[i as int] == node@);
            assert(!vk.take(i as int).contains(node@)) by {
                if vk.take(i as int).contains(node@) {
                    let j = choose|j: int| 0 <= j < i && vk.take(i as int)[j] == node@;
                    assert(vk[j] == vk[i as int]);
                }
            }
        }
        if !node.same(root) {
            let in_flows = match t.upstream_of(node) {
                Some(fl) => tree_in(fl, edges, node),
                None => {
                    let v: Vec<Flow> = Vec::new();
                    assert(flows_view(v@) =~= Seq::<FlowView>::empty());
                    v
                },
            };
            if in_flows.len() > 0 {
                let ghost m0 = as_map(flow_entries(out@));
                let ghost kv = node@;
                let ghost fv = flows_view(in_flows@);
                let key = node.clone();
                proof {
                    assert(flow_entries(out@.push((key, in_flows))) =~= flow_entries(out@).push((kv, fv)));
                    assert(!has_key(flow_entries(out@), kv)) by {
                        if has_key(flow_entries(out@), kv) {
                            let j = choose|j: int|
                                0 <= j < flow_entries(out@).len() && flow_entries(out@)[j].0 == kv;
                            lemma_as_map_index(flow_entries(out@), j);
                        }
                    }
                    lemma_as_map_push(flow_entries(out@), kv, fv);
                }
                out.push((key, in_flows));
            }
        }
        i = i + 1;
    }
    assert(vk.take(visited@.len() as int) =~= vk);
    out
}

/// The subgraph's downstream index.
fn visible_out(t: &Topology, root: &NodeId, visited: &Vec<NodeId>, edges: &Vec<(NodeId, NodeId)>) -> (r: Vec<
    (NodeId, Vec<Flow>),
>)
    requires
        t.wf(),
        keys_view(visited@).no_duplicates(),
    ensures
        keys_unique(flow_entries(r@)),
        forall|k: NodeKey|
            #[trigger] as_map(flow_entries(r@)).contains_key(k) <==> shows_out(
                t@,
                keys_view(visited@),
                edges_view(edges@),
                root@,
                k,
            ),
        forall|k: NodeKey|
            #[trigger] as_map(flow_entries(r@)).contains_key(k) ==> as_map(flow_entries(r@))[k]
                == shown_out(t@, edges_view(edges@), root@, k),
{
    let ghost vk = keys_view(visited@);
    let ghost ev = edges_view(edges@);
    let mut out: Vec<(NodeId, Vec<Flow>)> = Vec::new();
    proof {
        lemma_empty_as_map(flow_entries(out@));
    }
    match t.downstream_of(root) {
        Some(outflows) => {
            let ghost kv = root@;
            let fl = copy_flows(outflows);
            let ghost fv = flows_view(fl@);
            let key = root.clone();
            proof {
                assert(flow_entries(out@.push((key, fl))) =~= flow_entries(out@).push((kv, fv)));
            }
            out.push((key, fl));
            proof {
                lemma_as_map_push(Seq::<(NodeKey, Seq<FlowView>)>::empty(), kv, fv);
                assert(flow_entries(out@) =~= Seq::<(NodeKey, Seq<FlowView>)>::empty().push((kv, fv)));
            }
        },
        None => {},
    }
    let mut i: usize = 0;
    while i < visited.len()
        invariant
            t.wf(),
            i <= visited@.len(),
            vk == keys_view(visited@),
            ev == edges_view(edges@),
            vk.no_duplicates(),
            keys_unique(flow_entries(out@)),
            forall|k: NodeKey|
                #[trigger] as_map(flow_entries(out@)).contains_key(k) <==> (if k == root@ {
                    t@.downstream.contains_key(root@)
                } else {
                    vk.take(i as int).contains(k) && keep_out(get_or_empty(t@.downstream, k), ev, k).len()
                        > 0
                }),
            forall|k: NodeKey|
                #[trigger] as_map(flow_entries(out@)).contains_key(k) ==> as_map(flow_entries(out@))[k]
                    == shown_out(t@, ev, root@, k),
        decreases visited.len() - i,
    {
        let node = &visited[i];
        proof {
            lemma_push_contains(vk.take(i as int), vk[i as int]);
            assert(vk.take(i + 1) =~= vk.take(i as int).push(vk[i as int]));
            assert(vk[i as int] == node@);
            assert(!vk.take(i as int).contains(node@)) by {
                if vk.take(i as int).contains(node@) {
                    let j = choose|j: int| 0 <= j < i && vk.take(i as int)[j] == node@;
                    assert(vk[j] == vk[i as int]);
                }
            }
        }
        if !node.same(root) {
            let out_flows = match t.downstream_of(node) {
                Some(fl) => tree_out(fl, edges, node),
                None => {
                    let v: Vec<Flow> = Vec::new();
                    assert(flows_view(v@) =~= Seq::<FlowView>::empty());
                    v
                },
            };
            if out_flows.len() > 0 {
                let ghost kv = node@;
                let ghost fv = flows_view(out_flows@);
                let key = node.clone();
                proof {
                    assert(flow_entries(out@.push((key, out_flows))) =~= flow_entries(out@).push((kv, fv)));
                    assert(!has_key(flow_entries(out@), kv)) by {
                        if has_key(flow_entries(out@), kv) {
                            let j = choose|j: int|
                                0 <= j < flow_entries(out@).len() && flow_entries(out@)[j].0 == kv;
                            lemma_as_map_index(flow_entries(out@), j);
                        }
                    }
                    lemma_as_map_push(flow_entries(out@), kv, fv);
                }
                out.push((key, out_flows));
            }
        }
        i = i + 1;
    }
    assert(vk.take(visited@.len() as int) =~= vk);
    out
}

impl Topology {
    /// The breadth-first search of `depth` levels from `root` along
    /// downstream flows: the nodes found, in order, and the tree edges.
    fn search(&self, root: &NodeId, depth: u32) -> (r: (Vec<NodeId>, Vec<(NodeId, NodeId)>))
        requires
            self.wf(),
        ensures
            keys_view(r.0@) == bfs(self@.downstream, root@, depth as nat).visited,
            edges_view(r.1@) == bfs(self@.downstream, root@, depth as nat).edges,
    {
        let ghost down = self@.downstream;
        let mut visited: Vec<NodeId> = Vec::new();
        visited.push(root.clone());
        let mut edges: Vec<(NodeId, NodeId)> = Vec::new();
        let mut frontier: Vec<NodeId> = Vec::new();
        frontier.push(root.clone());
        assert(state_of(visited@, edges@, frontier@) =~= bfs(down, root@, 0)) by {
            assert(keys_view(visited@) =~= seq![root@]);
            assert(keys_view(frontier@) =~= seq![root@]);
            assert(edges_view(edges@) =~= Seq::<(NodeKey, NodeKey)>::empty());
        }
        let mut level: u32 = 0;
        while level < depth && frontier.len() > 0
            invariant
                self.wf(),
                down == self@.downstream,
                level <= depth,
                state_of(visited@, edges@, frontier@) == bfs(down, root@, level as nat),
            decreases depth - level,
        {
            let ghost prev = bfs(down, root@, level as nat);
            let ghost st0 = BfsState { visited: prev.visited, edges: prev.edges, next: Seq::empty() };
            let ghost fk = keys_view(frontier@);
            let mut next: Vec<NodeId> = Vec::new();
            assert(fk.take(0) =~= Seq::<NodeKey>::empty());
            assert(keys_view(next@) =~= Seq::<NodeKey>::empty());
            assert(state_of(visited@, edges@, next@) == st0);
            assert(state_of(visited@, edges@, next@) == scan_frontier(st0, down, fk.take(0)));
            let mut fi: usize = 0;
            while fi < frontier.len()
                invariant
                    self.wf(),
                    down == self@.downstream,
                    fi <= frontier@.len(),
                    fk == keys_view(frontier@),
                    state_of(visited@, edges@, next@) == scan_frontier(st0, down, fk.take(fi as int)),
                decreases frontier.len() - fi,
            {
                assert(fk.take(fi + 1).drop_last() =~= fk.take(fi as int));
                assert(fk.take(fi + 1).last() == frontier@[fi as int]@);
                match self.downstream_of(&frontier[fi]) {
                    Some(fl) => {
                        scan_node(&mut visited, &mut edges, &mut next, &frontier[fi], fl);
                    },
                    None => {
                        proof {
                            lemma_scan_flows_empty(
                                scan_frontier(st0, down, fk.take(fi as int)),
                                frontier@[fi as int]@,
                                get_or_empty(down, frontier@[fi as int]@),
                            );
                        }
                    },
                }
                fi = fi + 1;
            }
            assert(fk.take(frontier@.len() as int) =~= fk);
            frontier = next;
            level = level + 1;
        }
        proof {
            if level < depth {
                assert(keys_view(frontier@).len() == 0);
                lemma_bfs_stable(down, root@, level as nat, depth as nat);
            }
        }
        (visited, edges)
    }

    /// Breadth-first search from the node `(root_app, root_ns)` following
    /// downstream edges only, up to `depth` hops.
    ///
    /// Root node: all incoming and outgoing edges are included. All other
    /// visible nodes keep only their search-tree edges (parent → child), so
    /// cross-edges between siblings are excluded. Callers of the root are
    /// added as nodes but not expanded. An unknown root gives an empty result.
    pub fn get_subgraph(&self, root_app: &str, root_ns: &str, depth: u32) -> (r: SubgraphResult)
        requires
            self.wf(),
        ensures
            keys_view(r.nodes@).no_duplicates(),
            keys_unique(flow_entries(r.upstream@)),
            keys_unique(flow_entries(r.downstream@)),
            r@ == spec_subgraph(self@, (root_app@, root_ns@), depth as nat),
    {
        let root = NodeId::new(root_app, root_ns);
        if !self.contains_node(&root) {
            let r = SubgraphResult { nodes: Vec::new(), upstream: Vec::new(), downstream: Vec::new() };
            proof {
                lemma_empty_as_map(flow_entries(r.upstream@));
                lemma_empty_as_map(flow_entries(r.downstream@));
                assert(r@.nodes =~= Set::<NodeKey>::empty());
            }
            return r;
        }
        let (visited, edges) = self.search(&root, depth);
        let ghost b = bfs(self@.downstream, root@, depth as nat);
        proof {
            lemma_bfs_no_dup(self@.downstream, root@, depth as nat);
        }
        let mut all_nodes: Vec<NodeId> = Vec::new();
        let mut i: usize = 0;
        while i < visited.len()
            invariant
                i <= visited@.len(),
                keys_view(visited@).no_duplicates(),
                keys_view(all_nodes@) == keys_view(visited@).take(i as int),
            decreases visited.len() - i,
        {
            let ghost before = all_nodes@;
            all_nodes.push(visited[i].clone());
            assert(keys_view(all_nodes@) =~= keys_view(before).push(visited@[i as int]@));
            assert(keys_view(visited@).take(i + 1) =~= keys_view(visited@).take(i as int).push(
                visited@[i as int]@,
            ));
            assert(keys_view(all_nodes@) =~= keys_view(visited@).take(i + 1));
            i = i + 1;
        }
        assert(keys_view(visited@).take(visited@.len() as int) =~= keys_view(visited@));
        match self.upstream_of(&root) {
            Some(inflows) => {
                add_callers(&mut all_nodes, inflows);
            },
            None => {
                assert(flow_sources(get_or_empty(self@.upstream, root@)) =~= Seq::<NodeKey>::empty());
            },
        }
        let up = visible_in(self, &root, &visited, &edges);
        let down = visible_out(self, &root, &visited, &edges);
        let r = SubgraphResult { nodes: all_nodes, upstream: up, downstream: down };
        assert(r@.nodes =~= spec_subgraph(self@, root@, depth as nat).nodes);
        assert(r@.upstream =~= spec_subgraph(self@, root@, depth as nat).upstream);
        assert(r@.downstream =~= spec_subgraph(self@, root@, depth as nat).downstream);
        r
    }
}

} // verus!
