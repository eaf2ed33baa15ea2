//! Human-readable text of the graph, its nodes and its flows.

use vstd::prelude::*;
use crate::assoc::{as_map, keys_unique, lemma_as_map_index, lemma_as_map_len, lists_exactly, from_entry, listed};
use crate::order::{covers, keyed_view, permuted_by, sort_by_text, text_lt};
use crate::query::{node_key, node_text};
use crate::text::{decimal_digits, decimal_text};
use crate::topology::{flow_entries, flows_view, Flow, FlowView, NodeId, NodeKey, Topology};

verus! {

/// The text of a flow: `src → dst  method path`.
pub open spec fn flow_text(f: FlowView) -> Seq<char> {
    node_text(f.source_node) + " → "@ + node_text(f.destination_node) + "  "@ + f.method + " "@ + f.path
}

impl NodeId {
    /// The text of the identity: `namespace/application`.
    pub fn text(&self) -> (r: String)
        ensures
            r@ == node_text(self@),
    {
        node_key(self)
    }
}

impl Flow {
    /// The text of the flow: `src → dst  method path`.
    pub fn text(&self) -> (r: String)
        ensures
            r@ == flow_text(self@),
    {
        let mut s = node_key(&self.source_node);
        s.append(" → ");
        s.append(node_key(&self.destination_node).as_str());
        s.append("  ");
        s.append(self.method.as_str());
        s.append(" ");
        s.append(self.path.as_str());
        s
    }
}

/// The flow lines of one list: `  flow` each.
pub open spec fn flow_lines(s: Seq<FlowView>) -> Seq<char>
    decreases s.len(),
{
    if s.len() == 0 {
        Seq::empty()
    } else {
        flow_lines(s.drop_last()) + "  "@ + flow_text(s.last()) + "\n"@
    }
}

/// The flow lines of the lists in a given order.
pub open spec fn listing_lines(order: Seq<(NodeKey, Seq<FlowView>)>) -> Seq<char>
    decreases order.len(),
{
    if order.len() == 0 {
        Seq::empty()
    } else {
        listing_lines(order.drop_last()) + flow_lines(order.last().1)
    }
}

/// How many flows the lists hold.
pub open spec fn flow_total(order: Seq<(NodeKey, Seq<FlowView>)>) -> nat
    decreases order.len(),
{
    if order.len() == 0 {
        0
    } else {
        flow_total(order.drop_last()) + order.last().1.len()
    }
}

/// An entry paired with its key.
pub open spec fn entry_fn() -> spec_fn(NodeKey, Seq<FlowView>) -> (NodeKey, Seq<FlowView>) {
    |k: NodeKey, fs: Seq<FlowView>| (k, fs)
}

/// The lists are ordered by the text of their node.
pub open spec fn by_node_text(order: Seq<(NodeKey, Seq<FlowView>)>) -> bool {
    forall|i: int, j: int|
        0 <= i < j < order.len() ==> !text_lt(node_text(#[trigger] order[j].0), node_text(#[trigger] order[i].0))
}

/// The text of the graph with its downstream lists in a given order: a
/// header with the node and flow counts (the count capped at `u64::MAX`),
/// then every flow, one per line.
pub open spec fn topology_text(nodes: nat, order: Seq<(NodeKey, Seq<FlowView>)>) -> Seq<char> {
    let total = if flow_total(order) <= u64::MAX {
        flow_total(order)
    } else {
        u64::MAX as nat
    };
    "Topology: "@ + decimal_digits(nodes) + " nodes, "@ + decimal_digits(total) + " edges\n"@
        + listing_lines(order)
}

fn flow_lines_text(flows: &Vec<Flow>) -> (r: String)
    ensures
        r@ == flow_lines(flows_view(flows@)),
{
    let ghost fv = flows_view(flows@);
    let mut out = String::new();
    let mut i: usize = 0;
    while i < flows.len()
        invariant
            i <= flows@.len(),
            fv == flows_view(flows@),
            out@ == flow_lines(fv.take(i as int)),
        decreases flows@.len() - i,
    {
        proof {
            assert(fv.take(i + 1).drop_last() =~= fv.take(i as int));
        }
        let ghost before = out@;
        out.append("  ");
        out.append(flows[i].text().as_str());
        out.append("\n");
        assert(out@ =~= before + "  "@ + flow_text(fv[i as int]) + "\n"@);
        i = i + 1;
    }
    assert(fv.take(flows@.len() as int) =~= fv);
    out
}

proof fn lemma_listing(
    order: Seq<(NodeKey, Seq<FlowView>)>,
    entries: Seq<(NodeKey, Seq<FlowView>)>,
    sv: Seq<(Seq<char>, usize)>,
    iv: Seq<(Seq<char>, usize)>,
    perm: Seq<int>,
)
    requires
        keys_unique(entries),
        permuted_by(sv, iv, perm),
        iv.len() == entries.len(),
        forall|q: int| 0 <= q < iv.len() ==> #[trigger] iv[q] == (node_text(entries[q].0), q as usize),
        order == Seq::new(sv.len(), |q: int| entries[perm[q]]),
        crate::order::sorted_by_key(sv),
    ensures
        lists_exactly(order, as_map(entries), entry_fn()),
        by_node_text(order),
{
    lemma_as_map_len(entries);
    crate::assoc::lemma_as_map_index_all(entries);
    assert forall|j: int| 0 <= j < order.len() implies from_entry(as_map(entries), entry_fn(), #[trigger] order[j]) by {
        let p = perm[j];
        assert(as_map(entries).contains_key(entries[p].0));
    }
    assert forall|k: NodeKey| #[trigger] as_map(entries).contains_key(k) implies listed(order, as_map(entries), entry_fn(), k) by {
        let p = choose|p: int| 0 <= p < entries.len() && entries[p].0 == k;
        assert(as_map(entries).contains_key(entries[p].0));
        assert(covers(perm, sv.len() as int, p));
        let j = choose|j: int| 0 <= j < sv.len() && #[trigger] perm[j] == p;
        assert(order[j] == entries[p]);
    }
    assert forall|a: int, b: int| 0 <= a < b < order.len() implies !text_lt(node_text(#[trigger] order[b].0), node_text(#[trigger] order[a].0)) by {
        assert(sv[a] == iv[perm[a]] && sv[b] == iv[perm[b]]);
        assert(!text_lt(sv[b].0, sv[a].0));
    }
}

impl Topology {
    /// The text of the graph: a header with the counts of nodes and flows,
    /// then every flow, grouped by source and sorted by the source's text
    /// for deterministic output.
    pub fn text(&self) -> (r: String)
        requires
            self.wf(),
        ensures
            exists|order: Seq<(NodeKey, Seq<FlowView>)>|
                lists_exactly(order, self@.downstream, entry_fn()) && by_node_text(order) && r@
                    == topology_text(self@.nodes.len(), order),
    {
        let table = self.downstream_table();
        let ghost entries = flow_entries(table@);
        // Key each list by its source's text.
        let mut items: Vec<(String, usize)> = Vec::new();
        let mut i: usize = 0;
        while i < table.len()
            invariant
                i <= table@.len(),
                entries == flow_entries(table@),
                items@.len() == i,
                forall|j: int| 0 <= j < i ==> #[trigger] keyed_view(items@)[j] == (node_text(entries[j].0), j as usize),
            decreases table@.len() - i,
        {
            let ghost before = keyed_view(items@);
            items.push((node_key(&table[i].0), i));
            assert(keyed_view(items@) =~= before.push((node_text(entries[i as int].0), i)));
            i = i + 1;
        }
        let ghost iv = keyed_view(items@);
        let sorted = sort_by_text(items);
        let ghost sv = keyed_view(sorted@);
        let ghost perm = choose|perm: Seq<int>| permuted_by(sv, iv, perm);
        let ghost order = Seq::new(sv.len(), |q: int| entries[perm[q]]);
        // The flow lines in that order, and their count.
        let mut total: u64 = 0;
        let mut body = String::new();
        let mut j: usize = 0;
        while j < sorted.len()
            invariant
                j <= sorted@.len(),
                sv == keyed_view(sorted@),
                entries == flow_entries(table@),
                permuted_by(sv, iv, perm),
                forall|q: int| 0 <= q < iv.len() ==> #[trigger] iv[q] == (node_text(entries[q].0), q as usize),
                order == Seq::new(sv.len(), |q: int| entries[perm[q]]),
                iv.len() == entries.len(),
                body@ == listing_lines(order.take(j as int)),
                total == (if flow_total(order.take(j as int)) <= u64::MAX {
                    flow_total(order.take(j as int))
                } else {
                    u64::MAX as nat
                }),
            decreases sorted@.len() - j,
        {
            proof {
                assert(order.take(j + 1).drop_last() =~= order.take(j as int));
                assert(sv[j as int] == iv[perm[j as int]]);
            }
            let idx = sorted[j].1;
            let flows = &table[idx].1;
            assert(order[j as int] == entries[idx as int]);
            let n = flows.len() as u64;
            total = if total <= u64::MAX - n {
                total + n
            } else {
                u64::MAX
            };
            body.append(flow_lines_text(flows).as_str());
            j = j + 1;
        }
        proof {
            assert(order.take(sorted@.len() as int) =~= order);
            lemma_listing(order, entries, sv, iv, perm);
        }
        let mut out = "Topology: ".to_string();
        out.append(decimal_text(self.node_count() as u64).as_str());
        out.append(" nodes, ");
        out.append(decimal_text(total).as_str());
        out.append(" edges\n");
        out.append(body.as_str());
        out
    }
}

} // verus!
