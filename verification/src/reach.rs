//! What the breadth-first search of a subgraph finds: exactly the nodes
//! reachable from the root by at most `depth` downstream calls.

use vstd::prelude::*;
use crate::assoc::get_or_empty;
use crate::subgraph::{bfs, flow_sources, scan_flows, scan_frontier, spec_subgraph, BfsState};
use crate::topology::{FlowView, NodeKey, TopologyView};

verus! {

/// Whether `u` has a downstream flow to `v`.
pub open spec fn calls(down: Map<NodeKey, Seq<FlowView>>, u: NodeKey, v: NodeKey) -> bool {
    exists|i: int|
        0 <= i < get_or_empty(down, u).len() && #[trigger] get_or_empty(down, u)[i].destination_node
            == v
}

/// Whether `v` is reachable from `root` by at most `n` downstream calls.
pub open spec fn reach(down: Map<NodeKey, Seq<FlowView>>, root: NodeKey, n: nat, v: NodeKey) -> bool
    decreases n,
{
    if n == 0 {
        v == root
    } else {
        reach(down, root, (n - 1) as nat, v) || exists|u: NodeKey|
            #[trigger] calls(down, u, v) && reach(down, root, (n - 1) as nat, u)
    }
}

/// Whether some node of `f` calls `v`.
pub open spec fn called_by_any(down: Map<NodeKey, Seq<FlowView>>, f: Seq<NodeKey>, v: NodeKey) -> bool {
    exists|i: int| 0 <= i < f.len() && #[trigger] calls(down, f[i], v)
}

/// The destinations of a list of flows.
pub open spec fn dsts(s: Seq<FlowView>) -> Seq<NodeKey> {
    s.map_values(|f: FlowView| f.destination_node)
}

proof fn lemma_scan_flows_sets(st: BfsState, p: NodeKey, s: Seq<FlowView>)
    ensures
        forall|v: NodeKey|
            #[trigger] scan_flows(st, p, s).visited.contains(v) <==> st.visited.contains(v) || dsts(
                s,
            ).contains(v),
        forall|v: NodeKey|
            #[trigger] scan_flows(st, p, s).next.contains(v) <==> st.next.contains(v) || (dsts(
                s,
            ).contains(v) && !st.visited.contains(v)),
    decreases s.len(),
{
    if s.len() > 0 {
        let t = s.drop_last();
        lemma_scan_flows_sets(st, p, t);
        let st1 = scan_flows(st, p, t);
        let d = s.last().destination_node;
        assert(dsts(s) =~= dsts(t).push(d));
        assert forall|v: NodeKey| #[trigger] dsts(s).contains(v) <==> dsts(t).contains(v) || v == d by {
            if dsts(s).contains(v) {
                let j = choose|j: int| 0 <= j < dsts(s).len() && dsts(s)[j] == v;
                if j < t.len() {
                    assert(dsts(t)[j] == v);
                }
            }
            if dsts(t).contains(v) {
                let j = choose|j: int| 0 <= j < dsts(t).len() && dsts(t)[j] == v;
                assert(dsts(s)[j] == v);
            }
            if v == d {
                assert(dsts(s)[t.len() as int] == d);
            }
        }
        if !st1.visited.contains(d) {
            assert forall|v: NodeKey| #[trigger] st1.visited.push(d).contains(v) <==> st1.visited.contains(v) || v == d by {
                if st1.visited.push(d).contains(v) {
                    let j = choose|j: int| 0 <= j < st1.visited.push(d).len() && st1.visited.push(d)[j] == v;
                    if j < st1.visited.len() {
                        assert(st1.visited[j] == v);
                    }
                }
                if st1.visited.contains(v) {
                    let j = choose|j: int| 0 <= j < st1.visited.len() && st1.visited[j] == v;
                    assert(st1.visited.push(d)[j] == v);
                }
                if v == d {
                    assert(st1.visited.push(d)[st1.visited.len() as int] == d);
                }
            }
            assert forall|v: NodeKey| #[trigger] st1.next.push(d).contains(v) <==> st1.next.contains(v) || v == d by {
                if st1.next.push(d).contains(v) {
                    let j = choose|j: int| 0 <= j < st1.next.push(d).len() && st1.next.push(d)[j] == v;
                    if j < st1.next.len() {
                        assert(st1.next[j] == v);
                    }
                }
                if st1.next.contains(v) {
                    let j = choose|j: int| 0 <= j < st1.next.len() && st1.next[j] == v;
                    assert(st1.next.push(d)[j] == v);
                }
                if v == d {
                    assert(st1.next.push(d)[st1.next.len() as int] == d);
                }
            }
        }
    }
}

proof fn lemma_calls_dsts(down: Map<NodeKey, Seq<FlowView>>, u: NodeKey, v: NodeKey)
    ensures
        calls(down, u, v) <==> dsts(get_or_empty(down, u)).contains(v),
{
    let s = get_or_empty(down, u);
    if calls(down, u, v) {
        let i = choose|i: int| 0 <= i < s.len() && #[trigger] s[i].destination_node == v;
        assert(dsts(s)[i] == v);
    }
    if dsts(s).contains(v) {
        let i = choose|i: int| 0 <= i < dsts(s).len() && dsts(s)[i] == v;
        assert(s[i].destination_node == v);
    }
}

proof fn lemma_scan_frontier_sets(st: BfsState, down: Map<NodeKey, Seq<FlowView>>, f: Seq<NodeKey>)
    ensures
        forall|v: NodeKey|
            #[trigger] scan_frontier(st, down, f).visited.contains(v) <==> st.visited.contains(v)
                || called_by_any(down, f, v),
        forall|v: NodeKey|
            #[trigger] scan_frontier(st, down, f).next.contains(v) <==> st.next.contains(v) || (
            called_by_any(down, f, v) && !st.visited.contains(v)),
    decreases f.len(),
{
    if f.len() > 0 {
        let g = f.drop_last();
        let u = f.last();
        lemma_scan_frontier_sets(st, down, g);
        let st1 = scan_frontier(st, down, g);
        lemma_scan_flows_sets(st1, u, get_or_empty(down, u));
        assert forall|v: NodeKey| #[trigger] called_by_any(down, f, v) <==> called_by_any(down, g, v) || calls(down, u, v) by {
            if called_by_any(down, f, v) {
                let i = choose|i: int| 0 <= i < f.len() && #[trigger] calls(down, f[i], v);
                if i < g.len() {
                    assert(g[i] == f[i]);
                }
            }
            if called_by_any(down, g, v) {
                let i = choose|i: int| 0 <= i < g.len() && #[trigger] calls(down, g[i], v);
                assert(f[i] == g[i]);
            }
            if calls(down, u, v) {
                assert(f[f.len() - 1] == u);
            }
        }
        assert forall|v: NodeKey| calls(down, u, v) <==> #[trigger] dsts(get_or_empty(down, u)).contains(v) by {
            lemma_calls_dsts(down, u, v);
        }
    }
}

/// The search after `n` levels has seen exactly the nodes reachable by at
/// most `n` calls, and its frontier holds exactly those first reached at
/// level `n`.
pub proof fn lemma_bfs_reach(down: Map<NodeKey, Seq<FlowView>>, root: NodeKey, n: nat)
    ensures
        forall|v: NodeKey| #[trigger] bfs(down, root, n).visited.contains(v) <==> reach(down, root, n, v),
        forall|v: NodeKey|
            #[trigger] bfs(down, root, n).next.contains(v) <==> reach(down, root, n, v) && (n == 0
                || !reach(down, root, (n - 1) as nat, v)),
    decreases n,
{
    if n == 0 {
        let b = bfs(down, root, 0);
        assert forall|v: NodeKey| #[trigger] b.visited.contains(v) <==> v == root by {
            if v == root {
                assert(b.visited[0] == root);
            }
        }
        assert forall|v: NodeKey| #[trigger] b.next.contains(v) <==> v == root by {
            if v == root {
                assert(b.next[0] == root);
            }
        }
    } else {
        let m = (n - 1) as nat;
        lemma_bfs_reach(down, root, m);
        let prev = bfs(down, root, m);
        let st0 = BfsState { visited: prev.visited, edges: prev.edges, next: Seq::empty() };
        lemma_scan_frontier_sets(st0, down, prev.next);
        assert(bfs(down, root, n) == scan_frontier(st0, down, prev.next));
        assert forall|v: NodeKey| #[trigger] called_by_any(down, prev.next, v) implies reach(down, root, n, v) by {
            {
                let i = choose|i: int| 0 <= i < prev.next.len() && #[trigger] calls(down, prev.next[i], v);
                assert(prev.next.contains(prev.next[i]));
                assert(reach(down, root, m, prev.next[i]));
            }
        }
        assert forall|v: NodeKey| reach(down, root, n, v) && !reach(down, root, m, v) implies #[trigger] called_by_any(down, prev.next, v) by {
            let w = choose|w: NodeKey| #[trigger] calls(down, w, v) && reach(down, root, m, w);
            assert(calls(down, w, v) && reach(down, root, m, w));
            if m > 0 && reach(down, root, (m - 1) as nat, w) {
                assert(reach(down, root, m, v));
            }
            assert(prev.next.contains(w));
            let i = choose|i: int| 0 <= i < prev.next.len() && prev.next[i] == w;
            assert(calls(down, prev.next[i], v));
        }
        assert(Seq::<NodeKey>::empty().len() == 0);
        assert forall|v: NodeKey| !(#[trigger] Seq::<NodeKey>::empty().contains(v)) by {}
    }
}

/// The nodes of a subgraph rooted at a known node are exactly those reachable
/// from the root by at most `depth` downstream calls, together with the
/// direct callers of the root; a subgraph rooted at an unknown node is empty.
pub proof fn lemma_subgraph_nodes(t: TopologyView, root: NodeKey, depth: nat, k: NodeKey)
    ensures
        spec_subgraph(t, root, depth).nodes.contains(k) <==> t.nodes.contains_key(root) && (reach(
            t.downstream,
            root,
            depth,
            k,
        ) || flow_sources(get_or_empty(t.upstream, root)).contains(k)),
{
    lemma_bfs_reach(t.downstream, root, depth);
}

} // verus!
