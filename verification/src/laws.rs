//! Laws of the dependency graph: what each operation keeps, and what a
//! repeated call leaves unchanged.

use vstd::prelude::*;
use crate::assoc::get_or_empty;
use crate::topology::{
    push_new, rekey, rename_flow, rename_flows, rename_key, spec_add_flow, spec_add_k8s_event,
    spec_add_node, spec_resolve, unknown_namespace, FlowView, K8sEventView, NodeDataView, NodeKey,
    TopologyView,
};

verus! {

/// The end of a flow by which an index is keyed: the source for
/// `downstream`, the destination for `upstream`.
pub open spec fn endpoint(f: FlowView, by_source: bool) -> NodeKey {
    if by_source {
        f.source_node
    } else {
        f.destination_node
    }
}

/// Every flow listed under a key has that key at the indexed end.
pub open spec fn keyed_by(m: Map<NodeKey, Seq<FlowView>>, by_source: bool) -> bool {
    forall|k: NodeKey, i: int|
        0 <= i < get_or_empty(m, k).len() ==> endpoint(#[trigger] get_or_empty(m, k)[i], by_source)
            == k
}

/// The two flow indexes agree: every flow listed under its source in
/// `downstream` is listed under its destination in `upstream`, and back.
pub open spec fn mirrored(t: TopologyView) -> bool {
    forall|f: FlowView|
        #[trigger] get_or_empty(t.downstream, f.source_node).contains(f) <==> #[trigger] get_or_empty(
            t.upstream,
            f.destination_node,
        ).contains(f)
}

/// The consistency of the two flow indexes of a graph.
pub open spec fn index_consistent(t: TopologyView) -> bool {
    &&& keyed_by(t.downstream, true)
    &&& keyed_by(t.upstream, false)
    &&& mirrored(t)
}

/// Recording the same flow twice leaves the graph as recording it once.
pub proof fn lemma_add_flow_idempotent(t: TopologyView, f: FlowView)
    ensures
        spec_add_flow(spec_add_flow(t, f), f) == spec_add_flow(t, f),
{
    let t1 = spec_add_flow(t, f);
    let t2 = spec_add_flow(t1, f);
    let d = push_new(get_or_empty(t.downstream, f.source_node), f);
    let u = push_new(get_or_empty(t.upstream, f.destination_node), f);
    assert(d.contains(f)) by {
        if !get_or_empty(t.downstream, f.source_node).contains(f) {
            assert(d[d.len() - 1] == f);
        }
    }
    assert(u.contains(f)) by {
        if !get_or_empty(t.upstream, f.destination_node).contains(f) {
            assert(u[u.len() - 1] == f);
        }
    }
    assert(t2.downstream =~= t1.downstream);
    assert(t2.upstream =~= t1.upstream);
}

/// After a flow is recorded it is listed under its source in `downstream`
/// and under its destination in `upstream`; the nodes are untouched.
pub proof fn lemma_add_flow_lists(t: TopologyView, f: FlowView)
    ensures
        get_or_empty(spec_add_flow(t, f).downstream, f.source_node).contains(f),
        get_or_empty(spec_add_flow(t, f).upstream, f.destination_node).contains(f),
        spec_add_flow(t, f).nodes == t.nodes,
{
    let d = push_new(get_or_empty(t.downstream, f.source_node), f);
    let u = push_new(get_or_empty(t.upstream, f.destination_node), f);
    if !get_or_empty(t.downstream, f.source_node).contains(f) {
        assert(d[d.len() - 1] == f);
    }
    if !get_or_empty(t.upstream, f.destination_node).contains(f) {
        assert(u[u.len() - 1] == f);
    }
}

/// Adding a node that already exists changes nothing; adding a new one
/// records the given data; adding the same node twice is adding it once.
pub proof fn lemma_add_node_keeps_existing(t: TopologyView, k: NodeKey, d: NodeDataView, e: NodeDataView)
    ensures
        t.nodes.contains_key(k) ==> spec_add_node(t, k, d) == t,
        spec_add_node(t, k, d).nodes.contains_key(k),
        spec_add_node(t, k, d).nodes[k] == (if t.nodes.contains_key(k) {
            t.nodes[k]
        } else {
            d
        }),
        spec_add_node(spec_add_node(t, k, d), k, e) == spec_add_node(t, k, d),
{
}

/// A flow list with every flow renamed contains `g` exactly when some flow
/// of the given list renames to `g`.
proof fn lemma_rename_flows_contains(s: Seq<FlowView>, stale: NodeKey, res: NodeKey, g: FlowView)
    ensures
        rename_flows(s, stale, res).contains(g) <==> exists|f: FlowView|
            #[trigger] s.contains(f) && rename_flow(f, stale, res) == g,
{
    let r = rename_flows(s, stale, res);
    if r.contains(g) {
        let i = choose|i: int| 0 <= i < r.len() && r[i] == g;
        assert(s.contains(s[i]));
    }
    if exists|f: FlowView| #[trigger] s.contains(f) && rename_flow(f, stale, res) == g {
        let f = choose|f: FlowView| #[trigger] s.contains(f) && rename_flow(f, stale, res) == g;
        let i = choose|i: int| 0 <= i < s.len() && s[i] == f;
        assert(r[i] == g);
    }
}

/// In an index keyed by one end, the list under `k` after re-keying holds
/// exactly the flows that were listed under their own end and whose end
/// renames to `k`.
proof fn lemma_rekey_contains(
    m: Map<NodeKey, Seq<FlowView>>,
    by_source: bool,
    stale: NodeKey,
    res: NodeKey,
    k: NodeKey,
    f: FlowView,
)
    requires
        keyed_by(m, by_source),
    ensures
        get_or_empty(rekey(m, stale, res), k).contains(f) <==> get_or_empty(
            m,
            endpoint(f, by_source),
        ).contains(f) && rename_key(endpoint(f, by_source), stale, res) == k,
{
    let e = endpoint(f, by_source);
    let rk = rekey(m, stale, res);
    // Every member of a list keyed `j` has `j` at its end.
    assert forall|j: NodeKey| #[trigger] get_or_empty(m, j).contains(f) implies e == j by {
        let i = choose|i: int| 0 <= i < get_or_empty(m, j).len() && get_or_empty(m, j)[i] == f;
        assert(endpoint(get_or_empty(m, j)[i], by_source) == j);
    }
    if m.contains_key(stale) {
        let m1 = m.remove(stale);
        let before = get_or_empty(m1, res);
        assert(get_or_empty(rk, res) == before + m[stale]);
        assert forall|g: FlowView| #[trigger] (before + m[stale]).contains(g) <==> before.contains(g)
            || m[stale].contains(g) by {
            let c = before + m[stale];
            if c.contains(g) {
                let i = choose|i: int| 0 <= i < c.len() && c[i] == g;
                if i < before.len() {
                    assert(before[i] == g);
                } else {
                    assert(m[stale][i - before.len()] == g);
                }
            }
            if before.contains(g) {
                let i = choose|i: int| 0 <= i < before.len() && before[i] == g;
                assert(c[i] == g);
            }
            if m[stale].contains(g) {
                let i = choose|i: int| 0 <= i < m[stale].len() && m[stale][i] == g;
                assert(c[i + before.len()] == g);
            }
        }
        if k == res {
            if get_or_empty(m, e).contains(f) && rename_key(e, stale, res) == k {
                if e == stale {
                    assert(m[stale].contains(f));
                } else {
                    assert(e == res);
                    assert(before.contains(f));
                }
            }
            if get_or_empty(rk, k).contains(f) {
                if before.contains(f) {
                    assert(get_or_empty(m, res).contains(f));
                } else {
                    assert(get_or_empty(m, stale).contains(f));
                }
            }
        } else if k == stale {
            assert(get_or_empty(rk, k) == Seq::<FlowView>::empty());
        } else {
            assert(get_or_empty(rk, k) == get_or_empty(m, k));
        }
    } else {
        assert(rk == m);
        if get_or_empty(m, e).contains(f) && e == stale {
            assert(m.contains_key(stale));
        }
    }
}

/// A flow index after the re-keying and renaming of `spec_resolve`.
pub open spec fn resolved_index(m: Map<NodeKey, Seq<FlowView>>, stale: NodeKey, res: NodeKey) -> Map<
    NodeKey,
    Seq<FlowView>,
> {
    rekey(m, stale, res).map_values(|fs: Seq<FlowView>| rename_flows(fs, stale, res))
}

proof fn lemma_resolved_index_contains(
    m: Map<NodeKey, Seq<FlowView>>,
    by_source: bool,
    stale: NodeKey,
    res: NodeKey,
    g: FlowView,
)
    requires
        keyed_by(m, by_source),
    ensures
        get_or_empty(resolved_index(m, stale, res), endpoint(g, by_source)).contains(g) <==> exists|
            f: FlowView,
        |
            #[trigger] get_or_empty(m, endpoint(f, by_source)).contains(f) && rename_flow(
                f,
                stale,
                res,
            ) == g,
{
    let k = endpoint(g, by_source);
    let rk = rekey(m, stale, res);
    let ri = resolved_index(m, stale, res);
    assert(get_or_empty(ri, k) == rename_flows(get_or_empty(rk, k), stale, res));
    lemma_rename_flows_contains(get_or_empty(rk, k), stale, res, g);
    if get_or_empty(ri, k).contains(g) {
        let f = choose|f: FlowView|
            #[trigger] get_or_empty(rk, k).contains(f) && rename_flow(f, stale, res) == g;
        lemma_rekey_contains(m, by_source, stale, res, k, f);
        assert(get_or_empty(m, endpoint(f, by_source)).contains(f));
    }
    if exists|f: FlowView|
        #[trigger] get_or_empty(m, endpoint(f, by_source)).contains(f) && rename_flow(f, stale, res)
            == g {
        let f = choose|f: FlowView|
            #[trigger] get_or_empty(m, endpoint(f, by_source)).contains(f) && rename_flow(
                f,
                stale,
                res,
            ) == g;
        lemma_rekey_contains(m, by_source, stale, res, k, f);
        assert(rename_key(endpoint(f, by_source), stale, res) == k);
        assert(get_or_empty(rk, k).contains(f));
    }
}

proof fn lemma_resolved_index_keyed(m: Map<NodeKey, Seq<FlowView>>, by_source: bool, stale: NodeKey, res: NodeKey)
    requires
        keyed_by(m, by_source),
    ensures
        keyed_by(resolved_index(m, stale, res), by_source),
{
    let ri = resolved_index(m, stale, res);
    let rk = rekey(m, stale, res);
    assert forall|k: NodeKey, i: int| 0 <= i < get_or_empty(ri, k).len() implies endpoint(
        #[trigger] get_or_empty(ri, k)[i],
        by_source,
    ) == k by {
        let s = get_or_empty(rk, k);
        assert(get_or_empty(ri, k) == rename_flows(s, stale, res));
        let f = s[i];
        assert(s.contains(f));
        lemma_rekey_contains(m, by_source, stale, res, k, f);
        assert(get_or_empty(ri, k)[i] == rename_flow(f, stale, res));
    }
}

/// An empty graph is consistent.
pub proof fn lemma_empty_consistent(t: TopologyView)
    requires
        t.upstream == Map::<NodeKey, Seq<FlowView>>::empty(),
        t.downstream == Map::<NodeKey, Seq<FlowView>>::empty(),
    ensures
        index_consistent(t),
{
}

/// Recording a flow keeps the two indexes consistent.
pub proof fn lemma_add_flow_consistent(t: TopologyView, f: FlowView)
    requires
        index_consistent(t),
    ensures
        index_consistent(spec_add_flow(t, f)),
{
    let t1 = spec_add_flow(t, f);
    let d0 = get_or_empty(t.downstream, f.source_node);
    let u0 = get_or_empty(t.upstream, f.destination_node);
    assert forall|k: NodeKey, i: int| 0 <= i < get_or_empty(t1.downstream, k).len() implies endpoint(
        #[trigger] get_or_empty(t1.downstream, k)[i],
        true,
    ) == k by {
        if k == f.source_node && !d0.contains(f) && i == d0.len() {
        } else {
            assert(get_or_empty(t1.downstream, k)[i] == get_or_empty(t.downstream, k)[i]);
        }
    }
    assert forall|k: NodeKey, i: int| 0 <= i < get_or_empty(t1.upstream, k).len() implies endpoint(
        #[trigger] get_or_empty(t1.upstream, k)[i],
        false,
    ) == k by {
        if k == f.destination_node && !u0.contains(f) && i == u0.len() {
        } else {
            assert(get_or_empty(t1.upstream, k)[i] == get_or_empty(t.upstream, k)[i]);
        }
    }
    assert forall|g: FlowView| #[trigger] get_or_empty(t1.downstream, g.source_node).contains(g) <==> #[trigger] get_or_empty(
        t1.upstream,
        g.destination_node,
    ).contains(g) by {
        lemma_push_new_contains(get_or_empty(t.downstream, g.source_node), f, g);
        lemma_push_new_contains(get_or_empty(t.upstream, g.destination_node), f, g);
        if g.source_node == f.source_node {
        } else {
            assert(g != f);
        }
        if g.destination_node == f.destination_node {
        } else {
            assert(g != f);
        }
    }
}

proof fn lemma_push_new_contains(s: Seq<FlowView>, f: FlowView, g: FlowView)
    ensures
        push_new(s, f).contains(g) <==> s.contains(g) || g == f,
{
    if !s.contains(f) {
        let p = s.push(f);
        if p.contains(g) {
            let i = choose|i: int| 0 <= i < p.len() && p[i] == g;
            if i < s.len() {
                assert(s[i] == g);
            }
        }
        if s.contains(g) {
            let i = choose|i: int| 0 <= i < s.len() && s[i] == g;
            assert(p[i] == g);
        }
        if g == f {
            assert(p[s.len() as int] == g);
        }
    }
}

/// Adding a node or attaching an event leaves the flow indexes as they were.
pub proof fn lemma_node_updates_consistent(t: TopologyView, k: NodeKey, d: NodeDataView, e: K8sEventView)
    requires
        index_consistent(t),
    ensures
        index_consistent(spec_add_node(t, k, d)),
        index_consistent(spec_add_k8s_event(t, k, e)),
        spec_add_node(t, k, d).upstream == t.upstream,
        spec_add_node(t, k, d).downstream == t.downstream,
        spec_add_k8s_event(t, k, e).upstream == t.upstream,
        spec_add_k8s_event(t, k, e).downstream == t.downstream,
{
}

/// Resolving an unknown node keeps the two indexes consistent.
pub proof fn lemma_resolve_consistent(t: TopologyView, ip: Seq<char>, app: Seq<char>, ns: Seq<char>)
    requires
        index_consistent(t),
    ensures
        index_consistent(spec_resolve(t, ip, app, ns)),
{
    let stale = (ip, unknown_namespace());
    let res = (app, ns);
    if t.nodes.contains_key(stale) {
        let t1 = spec_resolve(t, ip, app, ns);
        assert(t1.downstream == resolved_index(t.downstream, stale, res));
        assert(t1.upstream == resolved_index(t.upstream, stale, res));
        lemma_resolved_index_keyed(t.downstream, true, stale, res);
        lemma_resolved_index_keyed(t.upstream, false, stale, res);
        assert forall|g: FlowView| #[trigger] get_or_empty(t1.downstream, g.source_node).contains(g) <==> #[trigger] get_or_empty(
            t1.upstream,
            g.destination_node,
        ).contains(g) by {
            lemma_resolved_index_contains(t.downstream, true, stale, res, g);
            lemma_resolved_index_contains(t.upstream, false, stale, res, g);
            if get_or_empty(t1.downstream, g.source_node).contains(g) {
                let f = choose|f: FlowView|
                    #[trigger] get_or_empty(t.downstream, endpoint(f, true)).contains(f)
                        && rename_flow(f, stale, res) == g;
                assert(get_or_empty(t.upstream, f.destination_node).contains(f));
                assert(get_or_empty(t.upstream, endpoint(f, false)).contains(f));
            }
            if get_or_empty(t1.upstream, g.destination_node).contains(g) {
                let f = choose|f: FlowView|
                    #[trigger] get_or_empty(t.upstream, endpoint(f, false)).contains(f)
                        && rename_flow(f, stale, res) == g;
                assert(get_or_empty(t.downstream, f.source_node).contains(f));
                assert(get_or_empty(t.downstream, endpoint(f, true)).contains(f));
            }
        }
    }
}

/// Resolving removes the stale node when the resolved identity differs, and
/// the resolved node then exists, holding the stale node's data unless it
/// already existed.
pub proof fn lemma_resolve_moves_node(t: TopologyView, ip: Seq<char>, app: Seq<char>, ns: Seq<char>)
    requires
        t.nodes.contains_key((ip, unknown_namespace())),
    ensures
        spec_resolve(t, ip, app, ns).nodes.contains_key((app, ns)),
        (ip, unknown_namespace()) != (app, ns) ==> !spec_resolve(t, ip, app, ns).nodes.contains_key(
            (ip, unknown_namespace()),
        ),
        spec_resolve(t, ip, app, ns).nodes[(app, ns)] == (if t.nodes.contains_key((app, ns)) && (
        ip, unknown_namespace()) != (app, ns) {
            t.nodes[(app, ns)]
        } else {
            t.nodes[(ip, unknown_namespace())]
        }),
{
}

/// After resolving, no flow in either index names the stale node.
pub proof fn lemma_resolve_no_stale_refs(
    t: TopologyView,
    ip: Seq<char>,
    app: Seq<char>,
    ns: Seq<char>,
    k: NodeKey,
    i: int,
)
    requires
        index_consistent(t),
        t.nodes.contains_key((ip, unknown_namespace())),
        (ip, unknown_namespace()) != (app, ns),
    ensures
        0 <= i < get_or_empty(spec_resolve(t, ip, app, ns).downstream, k).len() ==> {
            let f = get_or_empty(spec_resolve(t, ip, app, ns).downstream, k)[i];
            f.source_node != (ip, unknown_namespace()) && f.destination_node != (
            ip,
            unknown_namespace(),
            )
        },
        0 <= i < get_or_empty(spec_resolve(t, ip, app, ns).upstream, k).len() ==> {
            let f = get_or_empty(spec_resolve(t, ip, app, ns).upstream, k)[i];
            f.source_node != (ip, unknown_namespace()) && f.destination_node != (
            ip,
            unknown_namespace(),
            )
        },
{
    let stale = (ip, unknown_namespace());
    let res = (app, ns);
    let t1 = spec_resolve(t, ip, app, ns);
    assert(get_or_empty(t1.downstream, k) == rename_flows(
        get_or_empty(rekey(t.downstream, stale, res), k),
        stale,
        res,
    ));
    assert(get_or_empty(t1.upstream, k) == rename_flows(
        get_or_empty(rekey(t.upstream, stale, res), k),
        stale,
        res,
    ));
}

} // verus!
