//! The MCP server's side: the store queries it sends and the text reports
//! it answers with.

use vstd::prelude::*;
use crate::reply::{edges_view, reply_flows_view, reply_nodes_view, EdgeView, FlowList, GetTopologyResponse, TopologyEdge};
use crate::text::{chars_of, decimal_digits, decimal_text, push_char};
use crate::order::{keyed_view, permuted_by, permutes, sort_by_text, sorted_by_key};

verus! {

/// Input of the service-dependencies tool.
pub struct GetServiceDepsInput {
    /// Service name to look up
    pub service: String,
    /// Kubernetes namespace
    pub namespace: String,
}

/// Input of the Kubernetes-events tool.
pub struct GetK8sEventsInput {
    /// Filter by namespace (optional)
    pub namespace: Option<String>,
    /// Filter by resource type, e.g. "Deployment", "Event", "HPA" (optional)
    pub resource_type: Option<String>,
    /// Look back N minutes (default 60)
    pub last_minutes: Option<u32>,
}

/// Input of the network-events tool.
pub struct GetNetworkEventsInput {
    /// Filter by source service name (optional)
    pub src_service: Option<String>,
    /// Filter by destination service name (optional)
    pub dst_service: Option<String>,
    /// Look back N minutes (default 60)
    pub last_minutes: Option<u32>,
}

/// Row shape returned from ebpf_network_events.
pub struct EbpfRow {
    pub timestamp_ns: u64,
    pub src_service: String,
    pub src_namespace: String,
    pub dst_service: String,
    pub dst_namespace: String,
    pub src_port: u16,
    pub dst_port: u16,
    pub method: String,
    pub path: String,
    pub host: String,
}

/// Row shape returned from k8s_resource_events.
pub struct K8sRow {
    pub event_time: u32,
    pub resource_type: String,
    pub name: String,
    pub namespace: String,
    pub event_type: String,
    pub labels: String,
    pub resource_data: String,
}

/// The look-back of a tool call: 60 minutes unless given.
pub open spec fn minutes_of(last_minutes: Option<u32>) -> u32 {
    match last_minutes {
        Some(m) => m,
        None => 60,
    }
}

/// The look-back of a tool call: 60 minutes unless given.
pub fn look_back(last_minutes: Option<u32>) -> (r: u32)
    ensures
        r == minutes_of(last_minutes),
{
    match last_minutes {
        Some(m) => m,
        None => 60,
    }
}

/// `s` without single quotes.
pub open spec fn without_quotes(s: Seq<char>) -> Seq<char>
    decreases s.len(),
{
    if s.len() == 0 {
        Seq::empty()
    } else if s.last() == '\'' {
        without_quotes(s.drop_last())
    } else {
        without_quotes(s.drop_last()).push(s.last())
    }
}

/// Basic sanitization — strip single quotes to prevent trivial SQL injection.
pub fn sanitize(input: &str) -> (r: String)
    ensures
        r@ == without_quotes(input@),
{
    let v = chars_of(input);
    let mut out = String::new();
    let mut i: usize = 0;
    while i < v.len()
        invariant
            v@ == input@,
            i <= v.len(),
            out@ == without_quotes(input@.take(i as int)),
        decreases v.len() - i,
    {
        proof {
            assert(input@.take(i + 1).drop_last() =~= input@.take(i as int));
        }
        if v[i] != '\'' {
            push_char(&mut out, v[i]);
        }
        i = i + 1;
    }
    assert(input@.take(v.len() as int) =~= input@);
    out
}

/// A filter condition `column = 'value'`, quotes stripped from the value.
pub open spec fn equals_condition(column: Seq<char>, value: Seq<char>) -> Seq<char> {
    column + " = '"@ + without_quotes(value) + "'"@
}

fn equals_condition_text(column: &str, value: &str) -> (r: String)
    ensures
        r@ == equals_condition(column@, value@),
{
    let mut c = column.to_string();
    c.append(" = '");
    c.append(sanitize(value).as_str());
    c.append("'");
    c
}

/// Conditions joined with ` AND `.
pub open spec fn and_joined(conds: Seq<Seq<char>>) -> Seq<char>
    decreases conds.len(),
{
    if conds.len() == 0 {
        Seq::empty()
    } else if conds.len() == 1 {
        conds[0]
    } else {
        and_joined(conds.drop_last()) + " AND "@ + conds.last()
    }
}

fn join_and(conds: &Vec<String>) -> (r: String)
    ensures
        r@ == and_joined(conds@.map_values(|c: String| c@)),
{
    let ghost cv = conds@.map_values(|c: String| c@);
    let mut out = String::new();
    let mut i: usize = 0;
    while i < conds.len()
        invariant
            i <= conds@.len(),
            cv == conds@.map_values(|c: String| c@),
            out@ == and_joined(cv.take(i as int)),
        decreases conds@.len() - i,
    {
        proof {
            assert(cv.take(i + 1).drop_last() =~= cv.take(i as int));
        }
        if i > 0 {
            out.append(" AND ");
        }
        out.append(conds[i].as_str());
        proof {
            if i == 0 {
                assert(out@ =~= cv.take(1)[0]);
            }
        }
        i = i + 1;
    }
    assert(cv.take(conds@.len() as int) =~= cv);
    out
}

/// The optional condition texts of a query, in order.
pub open spec fn optional_conditions(
    first: Seq<char>,
    a_column: Seq<char>,
    a: Option<String>,
    b_column: Seq<char>,
    b: Option<String>,
) -> Seq<Seq<char>> {
    let c1 = seq![first];
    let c2 = match a {
        Some(v) => c1.push(equals_condition(a_column, v@)),
        None => c1,
    };
    match b {
        Some(v) => c2.push(equals_condition(b_column, v@)),
        None => c2,
    }
}

/// The query for recent Kubernetes resource events.
pub open spec fn k8s_events_query_text(
    table: Seq<char>,
    namespace: Option<String>,
    resource_type: Option<String>,
    last_minutes: u32,
) -> Seq<char> {
    let first = "event_time >= now() - INTERVAL "@ + decimal_digits(last_minutes as nat) + " MINUTE"@;
    "SELECT event_time, resource_type, name, namespace, event_type, labels, resource_data FROM "@
        + table + " WHERE "@ + and_joined(
        optional_conditions(first, "namespace"@, namespace, "resource_type"@, resource_type),
    ) + " ORDER BY event_time DESC LIMIT 100"@
}

fn conditions(first: String, a_column: &str, a: &Option<String>, b_column: &str, b: &Option<String>) -> (r: Vec<String>)
    ensures
        r@.map_values(|c: String| c@) == optional_conditions(first@, a_column@, *a, b_column@, *b),
{
    let ghost f = first@;
    let mut conds: Vec<String> = Vec::new();
    conds.push(first);
    assert(conds@.map_values(|c: String| c@) =~= seq![f]);
    if let Some(v) = a {
        let ghost before = conds@.map_values(|c: String| c@);
        conds.push(equals_condition_text(a_column, v.as_str()));
        assert(conds@.map_values(|c: String| c@) =~= before.push(equals_condition(a_column@, v@)));
    }
    if let Some(v) = b {
        let ghost before = conds@.map_values(|c: String| c@);
        conds.push(equals_condition_text(b_column, v.as_str()));
        assert(conds@.map_values(|c: String| c@) =~= before.push(equals_condition(b_column@, v@)));
    }
    conds
}

/// Query recent K8s resource events with optional filters.
pub fn k8s_events_query(table: &str, namespace: &Option<String>, resource_type: &Option<String>, last_minutes: u32) -> (r: String)
    ensures
        r@ == k8s_events_query_text(table@, *namespace, *resource_type, last_minutes),
{
    let mut first = "event_time >= now() - INTERVAL ".to_string();
    first.append(decimal_text(last_minutes as u64).as_str());
    first.append(" MINUTE");
    let conds = conditions(first, "namespace", namespace, "resource_type", resource_type);
    let mut q = "SELECT event_time, resource_type, name, namespace, event_type, labels, resource_data FROM ".to_string();
    q.append(table);
    q.append(" WHERE ");
    q.append(join_and(&conds).as_str());
    q.append(" ORDER BY event_time DESC LIMIT 100");
    q
}

/// The query for recent eBPF-captured traffic.
pub open spec fn network_events_query_text(
    table: Seq<char>,
    src_service: Option<String>,
    dst_service: Option<String>,
    last_minutes: u32,
) -> Seq<char> {
    let first = "timestamp_ns >= (toUnixTimestamp(now()) - "@ + decimal_digits((last_minutes * 60) as nat)
        + ") * 1000000000"@;
    "SELECT timestamp_ns, src_service, src_namespace, dst_service, dst_namespace, src_port, dst_port, method, path, host FROM "@
        + table + " WHERE "@ + and_joined(
        optional_conditions(first, "src_service"@, src_service, "dst_service"@, dst_service),
    ) + " ORDER BY timestamp_ns DESC LIMIT 100"@
}

/// Query eBPF-captured HTTP traffic with optional service filters; the
/// look-back in seconds must fit a `u32`.
pub fn network_events_query(table: &str, src_service: &Option<String>, dst_service: &Option<String>, last_minutes: u32) -> (r: String)
    requires
        last_minutes * 60 <= u32::MAX,
    ensures
        r@ == network_events_query_text(table@, *src_service, *dst_service, last_minutes),
{
    let mut first = "timestamp_ns >= (toUnixTimestamp(now()) - ".to_string();
    first.append(decimal_text((last_minutes * 60) as u64).as_str());
    first.append(") * 1000000000");
    let conds = conditions(first, "src_service", src_service, "dst_service", dst_service);
    let mut q = "SELECT timestamp_ns, src_service, src_namespace, dst_service, dst_namespace, src_port, dst_port, method, path, host FROM ".to_string();
    q.append(table);
    q.append(" WHERE ");
    q.append(join_and(&conds).as_str());
    q.append(" ORDER BY timestamp_ns DESC LIMIT 100");
    q
}

/// The view of a stored Kubernetes event row.
pub type K8sRowView = (u32, Seq<char>, Seq<char>, Seq<char>, Seq<char>, Seq<char>);

/// The views of Kubernetes event rows: (time, type, name, namespace, event
/// type, data).
pub open spec fn k8s_rows_view(rows: Seq<K8sRow>) -> Seq<K8sRowView> {
    rows.map_values(
        |r: K8sRow| (r.event_time, r.resource_type@, r.name@, r.namespace@, r.event_type@, r.resource_data@),
    )
}

/// The lines of one Kubernetes event row.
pub open spec fn k8s_row_text(r: K8sRowView) -> Seq<char> {
    let head = "  ["@ + r.4 + "] "@ + r.1 + " "@ + r.3 + "/"@ + r.2 + " — "@ + decimal_digits(r.0 as nat)
        + "\n"@;
    if r.5.len() > 0 && r.5 != "{}"@ {
        head + "        data: "@ + r.5 + "\n"@
    } else {
        head
    }
}

/// The lines of many rows, one after the other.
pub open spec fn k8s_rows_text(rows: Seq<K8sRowView>) -> Seq<char>
    decreases rows.len(),
{
    if rows.len() == 0 {
        Seq::empty()
    } else {
        k8s_rows_text(rows.drop_last()) + k8s_row_text(rows.last())
    }
}

/// The report of the Kubernetes-events tool.
pub open spec fn k8s_events_report_text(rows: Seq<K8sRowView>, minutes: u32) -> Seq<char> {
    if rows.len() == 0 {
        "No K8s events found in the last "@ + decimal_digits(minutes as nat) + " minutes."@
    } else {
        "K8s Events (last "@ + decimal_digits(minutes as nat) + " min, "@ + decimal_digits(rows.len())
            + " results):\n\n"@ + k8s_rows_text(rows)
    }
}

fn same_text(a: &str, b: &str) -> (r: bool)
    ensures
        r == (a@ == b@),
{
    let x = chars_of(a);
    let y = chars_of(b);
    if x.len() != y.len() {
        return false;
    }
    let mut i: usize = 0;
    while i < x.len()
        invariant
            x@ == a@,
            y@ == b@,
            x.len() == y.len(),
            i <= x.len(),
            forall|j: int| 0 <= j < i ==> x@[j] == y@[j],
        decreases x.len() - i,
    {
        if x[i] != y[i] {
            return false;
        }
        i = i + 1;
    }
    assert(a@ =~= b@);
    true
}

/// Renders recent Kubernetes resource events.
pub fn k8s_events_report(rows: &Vec<K8sRow>, minutes: u32) -> (r: String)
    ensures
        r@ == k8s_events_report_text(k8s_rows_view(rows@), minutes),
{
    if rows.len() == 0 {
        let mut out = "No K8s events found in the last ".to_string();
        out.append(decimal_text(minutes as u64).as_str());
        out.append(" minutes.");
        return out;
    }
    let ghost rv = k8s_rows_view(rows@);
    let mut out = "K8s Events (last ".to_string();
    out.append(decimal_text(minutes as u64).as_str());
    out.append(" min, ");
    out.append(decimal_text(rows.len() as u64).as_str());
    out.append(" results):\n\n");
    let ghost header = out@;
    let mut i: usize = 0;
    while i < rows.len()
        invariant
            i <= rows@.len(),
            rv == k8s_rows_view(rows@),
            out@ == header + k8s_rows_text(rv.take(i as int)),
        decreases rows@.len() - i,
    {
        proof {
            assert(rv.take(i + 1).drop_last() =~= rv.take(i as int));
        }
        let row = &rows[i];
        let ghost before = out@;
        out.append("  [");
        out.append(row.event_type.as_str());
        out.append("] ");
        out.append(row.resource_type.as_str());
        out.append(" ");
        out.append(row.namespace.as_str());
        out.append("/");
        out.append(row.name.as_str());
        out.append(" — ");
        out.append(decimal_text(row.event_time as u64).as_str());
        out.append("\n");
        if !row.resource_data.as_str().is_empty() && !same_text(row.resource_data.as_str(), "{}") {
            out.append("        data: ");
            out.append(row.resource_data.as_str());
            out.append("\n");
        }
        assert(out@ =~= before + k8s_row_text(rv[i as int]));
        i = i + 1;
    }
    assert(rv.take(rows@.len() as int) =~= rv);
    out
}

/// The view of a stored traffic row.
pub type EbpfRowView = (Seq<char>, Seq<char>, u16, Seq<char>, Seq<char>, u16, Seq<char>, Seq<char>, Seq<char>);

/// The views of traffic rows: (source namespace, source service, source
/// port, destination namespace, destination service, destination port,
/// method, path, host).
pub open spec fn ebpf_rows_view(rows: Seq<EbpfRow>) -> Seq<EbpfRowView> {
    rows.map_values(
        |r: EbpfRow|
            (
                r.src_namespace@,
                r.src_service@,
                r.src_port,
                r.dst_namespace@,
                r.dst_service@,
                r.dst_port,
                r.method@,
                r.path@,
                r.host@,
            ),
    )
}

/// The line of one traffic row.
pub open spec fn ebpf_row_text(r: EbpfRowView) -> Seq<char> {
    "  "@ + r.0 + "/"@ + r.1 + ":"@ + decimal_digits(r.2 as nat) + " → "@ + r.3 + "/"@ + r.4 + ":"@
        + decimal_digits(r.5 as nat) + " | "@ + r.6 + " "@ + r.7 + " | host="@ + r.8 + "\n"@
}

/// The lines of many rows, one after the other.
pub open spec fn ebpf_rows_text(rows: Seq<EbpfRowView>) -> Seq<char>
    decreases rows.len(),
{
    if rows.len() == 0 {
        Seq::empty()
    } else {
        ebpf_rows_text(rows.drop_last()) + ebpf_row_text(rows.last())
    }
}

/// The report of the network-events tool.
pub open spec fn network_events_report_text(rows: Seq<EbpfRowView>, minutes: u32) -> Seq<char> {
    if rows.len() == 0 {
        "No network events found in the last "@ + decimal_digits(minutes as nat) + " minutes."@
    } else {
        "Network Events (last "@ + decimal_digits(minutes as nat) + " min, "@ + decimal_digits(
            rows.len(),
        ) + " results):\n\n"@ + ebpf_rows_text(rows)
    }
}

/// Renders eBPF-captured HTTP traffic between services.
pub fn network_events_report(rows: &Vec<EbpfRow>, minutes: u32) -> (r: String)
    ensures
        r@ == network_events_report_text(ebpf_rows_view(rows@), minutes),
{
    if rows.len() == 0 {
        let mut out = "No network events found in the last ".to_string();
        out.append(decimal_text(minutes as u64).as_str());
        out.append(" minutes.");
        return out;
    }
    let ghost rv = ebpf_rows_view(rows@);
    let mut out = "Network Events (last ".to_string();
    out.append(decimal_text(minutes as u64).as_str());
    out.append(" min, ");
    out.append(decimal_text(rows.len() as u64).as_str());
    out.append(" results):\n\n");
    let ghost header = out@;
    let mut i: usize = 0;
    while i < rows.len()
        invariant
            i <= rows@.len(),
            rv == ebpf_rows_view(rows@),
            out@ == header + ebpf_rows_text(rv.take(i as int)),
        decreases rows@.len() - i,
    {
        proof {
            assert(rv.take(i + 1).drop_last() =~= rv.take(i as int));
        }
        let row = &rows[i];
        let ghost before = out@;
        out.append("  ");
        out.append(row.src_namespace.as_str());
        out.append("/");
        out.append(row.src_service.as_str());
        out.append(":");
        out.append(decimal_text(row.src_port as u64).as_str());
        out.append(" → ");
        out.append(row.dst_namespace.as_str());
        out.append("/");
        out.append(row.dst_service.as_str());
        out.append(":");
        out.append(decimal_text(row.dst_port as u64).as_str());
        out.append(" | ");
        out.append(row.method.as_str());
        out.append(" ");
        out.append(row.path.as_str());
        out.append(" | host=");
        out.append(row.host.as_str());
        out.append("\n");
        assert(out@ =~= before + ebpf_row_text(rv[i as int]));
        i = i + 1;
    }
    assert(rv.take(rows@.len() as int) =~= rv);
    out
}

/// The keys of the node entries of a reply.
pub open spec fn reply_keys(topo: GetTopologyResponse) -> Seq<Seq<char>> {
    reply_nodes_view(topo.nodes@).map_values(|e: (Seq<char>, (Seq<char>, Seq<char>, Seq<char>))| e.0)
}

/// Texts joined with `, `.
pub open spec fn comma_joined(s: Seq<Seq<char>>) -> Seq<char>
    decreases s.len(),
{
    if s.len() == 0 {
        Seq::empty()
    } else if s.len() == 1 {
        s[0]
    } else {
        comma_joined(s.drop_last()) + ", "@ + s.last()
    }
}

/// The edges listed under the first entry keyed `key`.
pub open spec fn edges_under(s: Seq<(Seq<char>, Seq<EdgeView>)>, key: Seq<char>) -> Option<Seq<EdgeView>>
    decreases s.len(),
{
    if s.len() == 0 {
        None
    } else if s[0].0 == key {
        Some(s[0].1)
    } else {
        edges_under(s.drop_first(), key)
    }
}

/// A caller line: `    ← ns/service (method path)`.
pub open spec fn caller_line(e: EdgeView) -> Seq<char> {
    "    ← "@ + e.1 + "/"@ + e.0 + " ("@ + e.4 + " "@ + e.5 + ")\n"@
}

/// A dependency line: `    → ns/service (method path)`.
pub open spec fn callee_line(e: EdgeView) -> Seq<char> {
    "    → "@ + e.3 + "/"@ + e.2 + " ("@ + e.4 + " "@ + e.5 + ")\n"@
}

/// The lines of a list of edges, one after the other.
pub open spec fn edge_lines(s: Seq<EdgeView>, callers: bool) -> Seq<char>
    decreases s.len(),
{
    if s.len() == 0 {
        Seq::empty()
    } else {
        edge_lines(s.drop_last(), callers) + if callers {
            caller_line(s.last())
        } else {
            callee_line(s.last())
        }
    }
}

/// The lines of one side of a service's dependencies, `(none)` when it has
/// no edges.
pub open spec fn side_text(edges: Option<Seq<EdgeView>>, callers: bool) -> Seq<char> {
    match edges {
        Some(e) => if e.len() > 0 {
            edge_lines(e, callers)
        } else {
            "    (none)\n"@
        },
        None => "    (none)\n"@,
    }
}

/// The report of the service-dependencies tool.
pub open spec fn dependencies_report_text(topo: GetTopologyResponse, service: Seq<char>, namespace: Seq<char>) -> Seq<char> {
    let key = namespace + "/"@ + service;
    if !reply_keys(topo).contains(key) {
        "Service '"@ + key + "' not found in topology. Known services: "@ + comma_joined(reply_keys(topo))
    } else {
        "Dependencies for "@ + key + ":\n"@ + "\n  Upstream (callers):\n"@ + side_text(
            edges_under(reply_flows_view(topo.upstream@), key),
            true,
        ) + "\n  Downstream (dependencies):\n"@ + side_text(
            edges_under(reply_flows_view(topo.downstream@), key),
            false,
        )
    }
}

/// How many times `c` occurs in `s`.
pub open spec fn count_char(s: Seq<char>, c: char) -> nat
    decreases s.len(),
{
    if s.len() == 0 {
        0
    } else {
        count_char(s.drop_last(), c) + if s.last() == c {
            1nat
        } else {
            0nat
        }
    }
}

/// `t` occurs in `s` as a contiguous piece.
pub open spec fn occurs_in(t: Seq<char>, s: Seq<char>) -> bool {
    exists|k: int| 0 <= k && k + t.len() <= s.len() && #[trigger] s.subrange(k, k + t.len()) == t
}

/// No field of the edge holds `c`.
pub open spec fn edge_free_of(e: EdgeView, c: char) -> bool {
    !e.0.contains(c) && !e.1.contains(c) && !e.2.contains(c) && !e.3.contains(c) && !e.4.contains(c)
        && !e.5.contains(c)
}

proof fn lemma_count_append(a: Seq<char>, b: Seq<char>, c: char)
    ensures
        count_char(a + b, c) == count_char(a, c) + count_char(b, c),
    decreases b.len(),
{
    if b.len() == 0 {
        assert(a + b =~= a);
    } else {
        assert((a + b).drop_last() =~= a + b.drop_last());
        lemma_count_append(a, b.drop_last(), c);
    }
}

proof fn lemma_count_absent(s: Seq<char>, c: char)
    requires
        !s.contains(c),
    ensures
        count_char(s, c) == 0,
    decreases s.len(),
{
    if s.len() > 0 {
        assert(!s.drop_last().contains(c)) by {
            if s.drop_last().contains(c) {
                let i = choose|i: int| 0 <= i < s.drop_last().len() && s.drop_last()[i] == c;
                assert(s[i] == c);
            }
        }
        assert(s[s.len() - 1] != c);
        lemma_count_absent(s.drop_last(), c);
    }
}

proof fn lemma_occurs_extend(t: Seq<char>, s: Seq<char>, a: Seq<char>, b: Seq<char>)
    requires
        occurs_in(t, s),
    ensures
        occurs_in(t, a + s + b),
{
    let k = choose|k: int| 0 <= k && k + t.len() <= s.len() && #[trigger] s.subrange(k, k + t.len()) == t;
    let w = a + s + b;
    assert(w.subrange(a.len() + k, a.len() + k + t.len()) =~= s.subrange(k, k + t.len()));
}

/// The arrow that opens a caller line.
pub open spec fn caller_arrow() -> char {
    '←'
}

proof fn lemma_caller_line_count(e: EdgeView)
    requires
        edge_free_of(e, caller_arrow()),
    ensures
        count_char(caller_line(e), caller_arrow()) == 1,
        count_char(callee_line(e), caller_arrow()) == 0,
{
    let c = caller_arrow();
    reveal_strlit("    ← ");
    reveal_strlit("    → ");
    reveal_strlit("/");
    reveal_strlit(" (");
    reveal_strlit(" ");
    reveal_strlit(")\n");
    assert(count_char("    ← "@, c) == 1) by {
        reveal_with_fuel(count_char, 7);
    }
    assert(count_char("    → "@, c) == 0) by {
        reveal_with_fuel(count_char, 7);
    }
    assert(count_char("/"@, c) == 0) by {
        reveal_with_fuel(count_char, 2);
    }
    assert(count_char(" ("@, c) == 0) by {
        reveal_with_fuel(count_char, 3);
    }
    assert(count_char(" "@, c) == 0) by {
        reveal_with_fuel(count_char, 2);
    }
    assert(count_char(")\n"@, c) == 0) by {
        reveal_with_fuel(count_char, 3);
    }
    lemma_count_absent(e.0, c);
    lemma_count_absent(e.1, c);
    lemma_count_absent(e.2, c);
    lemma_count_absent(e.3, c);
    lemma_count_absent(e.4, c);
    lemma_count_absent(e.5, c);
    lemma_count_append("    ← "@, e.1, c);
    lemma_count_append("    ← "@ + e.1, "/"@, c);
    lemma_count_append("    ← "@ + e.1 + "/"@, e.0, c);
    lemma_count_append("    ← "@ + e.1 + "/"@ + e.0, " ("@, c);
    lemma_count_append("    ← "@ + e.1 + "/"@ + e.0 + " ("@, e.4, c);
    lemma_count_append("    ← "@ + e.1 + "/"@ + e.0 + " ("@ + e.4, " "@, c);
    lemma_count_append("    ← "@ + e.1 + "/"@ + e.0 + " ("@ + e.4 + " "@, e.5, c);
    lemma_count_append("    ← "@ + e.1 + "/"@ + e.0 + " ("@ + e.4 + " "@ + e.5, ")\n"@, c);
    lemma_count_append("    → "@, e.3, c);
    lemma_count_append("    → "@ + e.3, "/"@, c);
    lemma_count_append("    → "@ + e.3 + "/"@, e.2, c);
    lemma_count_append("    → "@ + e.3 + "/"@ + e.2, " ("@, c);
    lemma_count_append("    → "@ + e.3 + "/"@ + e.2 + " ("@, e.4, c);
    lemma_count_append("    → "@ + e.3 + "/"@ + e.2 + " ("@ + e.4, " "@, c);
    lemma_count_append("    → "@ + e.3 + "/"@ + e.2 + " ("@ + e.4 + " "@, e.5, c);
    lemma_count_append("    → "@ + e.3 + "/"@ + e.2 + " ("@ + e.4 + " "@ + e.5, ")\n"@, c);
}

proof fn lemma_edge_lines_count(s: Seq<EdgeView>, callers: bool)
    requires
        forall|i: int| 0 <= i < s.len() ==> edge_free_of(#[trigger] s[i], caller_arrow()),
    ensures
        count_char(edge_lines(s, callers), caller_arrow()) == if callers {
            s.len()
        } else {
            0
        },
    decreases s.len(),
{
    if s.len() > 0 {
        let init = s.drop_last();
        assert forall|i: int| 0 <= i < init.len() implies edge_free_of(#[trigger] init[i], caller_arrow()) by {
            assert(init[i] == s[i]);
        }
        lemma_edge_lines_count(init, callers);
        assert(edge_free_of(s[s.len() - 1], caller_arrow()));
        lemma_caller_line_count(s.last());
        let line = if callers {
            caller_line(s.last())
        } else {
            callee_line(s.last())
        };
        lemma_count_append(edge_lines(init, callers), line, caller_arrow());
    }
}

proof fn lemma_edge_lines_occur(s: Seq<EdgeView>, callers: bool, i: int)
    requires
        0 <= i < s.len(),
    ensures
        occurs_in(
            if callers {
                caller_line(s[i])
            } else {
                callee_line(s[i])
            },
            edge_lines(s, callers),
        ),
    decreases s.len(),
{
    let init = s.drop_last();
    let line = if callers {
        caller_line(s.last())
    } else {
        callee_line(s.last())
    };
    let all = edge_lines(s, callers);
    assert(all == edge_lines(init, callers) + line);
    if i == s.len() - 1 {
        let k = edge_lines(init, callers).len() as int;
        assert(all.subrange(k, k + line.len()) =~= line);
    } else {
        lemma_edge_lines_occur(init, callers, i);
        assert(init[i] == s[i]);
        lemma_occurs_extend(
            if callers {
                caller_line(s[i])
            } else {
                callee_line(s[i])
            },
            edge_lines(init, callers),
            Seq::empty(),
            line,
        );
        assert(Seq::<char>::empty() + edge_lines(init, callers) + line =~= all);
    }
}

/// The caller section of the dependency report lists every caller once:
/// for a service in the graph (with no `←` in its name, namespace or any
/// field of its edges), each upstream edge `e` has its line
/// `    ← <namespace>/<service> (<method> <path>)` in the report, and the
/// report holds exactly as many `←` as the service has upstream edges.
pub proof fn lemma_dependencies_lists_every_caller(topo: GetTopologyResponse, service: Seq<char>, namespace: Seq<char>)
    requires
        reply_keys(topo).contains(namespace + "/"@ + service),
        !service.contains(caller_arrow()),
        !namespace.contains(caller_arrow()),
        match edges_under(reply_flows_view(topo.upstream@), namespace + "/"@ + service) {
            Some(e) => forall|i: int| 0 <= i < e.len() ==> edge_free_of(#[trigger] e[i], caller_arrow()),
            None => true,
        },
        match edges_under(reply_flows_view(topo.downstream@), namespace + "/"@ + service) {
            Some(e) => forall|i: int| 0 <= i < e.len() ==> edge_free_of(#[trigger] e[i], caller_arrow()),
            None => true,
        },
    ensures
        ({
            let r = dependencies_report_text(topo, service, namespace);
            let up = edges_under(reply_flows_view(topo.upstream@), namespace + "/"@ + service);
            &&& count_char(r, '←') == match up {
                Some(e) => e.len(),
                None => 0,
            }
            &&& forall|i: int| #![trigger up->0[i]] up is Some && 0 <= i < up->0.len() ==> occurs_in(
                "    ← "@ + up->0[i].1 + "/"@ + up->0[i].0 + " ("@ + up->0[i].4 + " "@ + up->0[i].5 + ")\n"@,
                r,
            )
        }),
{
    let c = caller_arrow();
    let key = namespace + "/"@ + service;
    let up = edges_under(reply_flows_view(topo.upstream@), key);
    let down = edges_under(reply_flows_view(topo.downstream@), key);
    let up_text = side_text(up, true);
    let down_text = side_text(down, false);
    reveal_strlit("/");
    reveal_strlit("Dependencies for ");
    reveal_strlit(":\n");
    reveal_strlit("\n  Upstream (callers):\n");
    reveal_strlit("\n  Downstream (dependencies):\n");
    reveal_strlit("    (none)\n");
    assert(count_char("/"@, c) == 0) by {
        reveal_with_fuel(count_char, 2);
    }
    assert(count_char(":\n"@, c) == 0) by {
        reveal_with_fuel(count_char, 3);
    }
    assert(!"Dependencies for "@.contains(c));
    assert(!"\n  Upstream (callers):\n"@.contains(c));
    assert(!"\n  Downstream (dependencies):\n"@.contains(c));
    assert(!"    (none)\n"@.contains(c));
    lemma_count_absent("Dependencies for "@, c);
    lemma_count_absent("\n  Upstream (callers):\n"@, c);
    lemma_count_absent("\n  Downstream (dependencies):\n"@, c);
    lemma_count_absent("    (none)\n"@, c);
    lemma_count_absent(service, c);
    lemma_count_absent(namespace, c);
    match up {
        Some(e) => {
            if e.len() > 0 {
                lemma_edge_lines_count(e, true);
            }
        },
        None => {},
    }
    match down {
        Some(e) => {
            if e.len() > 0 {
                lemma_edge_lines_count(e, false);
            }
        },
        None => {},
    }
    let p1 = "Dependencies for "@ + key;
    let p2 = p1 + ":\n"@;
    let p3 = p2 + "\n  Upstream (callers):\n"@;
    let p4 = p3 + up_text;
    let p5 = p4 + "\n  Downstream (dependencies):\n"@;
    let r = p5 + down_text;
    assert(r == dependencies_report_text(topo, service, namespace));
    lemma_count_append(namespace, "/"@, c);
    lemma_count_append(namespace + "/"@, service, c);
    lemma_count_append("Dependencies for "@, key, c);
    lemma_count_append(p1, ":\n"@, c);
    lemma_count_append(p2, "\n  Upstream (callers):\n"@, c);
    lemma_count_append(p3, up_text, c);
    lemma_count_append(p4, "\n  Downstream (dependencies):\n"@, c);
    lemma_count_append(p5, down_text, c);
    assert forall|i: int| #![trigger up->0[i]] up is Some && 0 <= i < up->0.len() implies occurs_in(
        "    ← "@ + up->0[i].1 + "/"@ + up->0[i].0 + " ("@ + up->0[i].4 + " "@ + up->0[i].5 + ")\n"@,
        r,
    ) by {
        let e = up->0;
        lemma_edge_lines_occur(e, true, i);
        assert(up_text == edge_lines(e, true));
        lemma_occurs_extend(caller_line(e[i]), up_text, p3, "\n  Downstream (dependencies):\n"@ + down_text);
        assert(p3 + up_text + ("\n  Downstream (dependencies):\n"@ + down_text) =~= r);
    }
}

/// The arrow that opens a dependency line.
pub open spec fn callee_arrow() -> char {
    '→'
}

proof fn lemma_callee_line_count(e: EdgeView)
    requires
        edge_free_of(e, callee_arrow()),
    ensures
        count_char(callee_line(e), callee_arrow()) == 1,
{
    let c = callee_arrow();
    reveal_strlit("    → ");
    reveal_strlit("/");
    reveal_strlit(" (");
    reveal_strlit(" ");
    reveal_strlit(")\n");
    assert(count_char("    → "@, c) == 1) by {
        reveal_with_fuel(count_char, 7);
    }
    assert(count_char("/"@, c) == 0) by {
        reveal_with_fuel(count_char, 2);
    }
    assert(count_char(" ("@, c) == 0) by {
        reveal_with_fuel(count_char, 3);
    }
    assert(count_char(" "@, c) == 0) by {
        reveal_with_fuel(count_char, 2);
    }
    assert(count_char(")\n"@, c) == 0) by {
        reveal_with_fuel(count_char, 3);
    }
    lemma_count_absent(e.0, c);
    lemma_count_absent(e.2, c);
    lemma_count_absent(e.3, c);
    lemma_count_absent(e.4, c);
    lemma_count_absent(e.5, c);
    lemma_count_append("    → "@, e.3, c);
    lemma_count_append("    → "@ + e.3, "/"@, c);
    lemma_count_append("    → "@ + e.3 + "/"@, e.2, c);
    lemma_count_append("    → "@ + e.3 + "/"@ + e.2, " ("@, c);
    lemma_count_append("    → "@ + e.3 + "/"@ + e.2 + " ("@, e.4, c);
    lemma_count_append("    → "@ + e.3 + "/"@ + e.2 + " ("@ + e.4, " "@, c);
    lemma_count_append("    → "@ + e.3 + "/"@ + e.2 + " ("@ + e.4 + " "@, e.5, c);
    lemma_count_append("    → "@ + e.3 + "/"@ + e.2 + " ("@ + e.4 + " "@ + e.5, ")\n"@, c);
}

proof fn lemma_callee_lines_count(s: Seq<EdgeView>)
    requires
        forall|i: int| 0 <= i < s.len() ==> edge_free_of(#[trigger] s[i], callee_arrow()),
    ensures
        count_char(edge_lines(s, false), callee_arrow()) == s.len(),
    decreases s.len(),
{
    if s.len() > 0 {
        let init = s.drop_last();
        assert forall|i: int| 0 <= i < init.len() implies edge_free_of(#[trigger] init[i], callee_arrow()) by {
            assert(init[i] == s[i]);
        }
        lemma_callee_lines_count(init);
        assert(edge_free_of(s[s.len() - 1], callee_arrow()));
        lemma_callee_line_count(s.last());
        lemma_count_append(edge_lines(init, false), callee_line(s.last()), callee_arrow());
    }
}

/// The dependency section of the report lists every callee once: for a
/// service in the graph (with no `→` in its name, namespace or any field of
/// its upstream edges), each downstream edge `e` has its line
/// `    → <namespace>/<service> (<method> <path>)` in the report, and the
/// report holds exactly as many `→` as the service has downstream edges.
pub proof fn lemma_dependencies_lists_every_callee(topo: GetTopologyResponse, service: Seq<char>, namespace: Seq<char>)
    requires
        reply_keys(topo).contains(namespace + "/"@ + service),
        !service.contains(callee_arrow()),
        !namespace.contains(callee_arrow()),
        match edges_under(reply_flows_view(topo.upstream@), namespace + "/"@ + service) {
            Some(e) => forall|i: int| 0 <= i < e.len() ==> edge_free_of(#[trigger] e[i], callee_arrow()),
            None => true,
        },
        match edges_under(reply_flows_view(topo.downstream@), namespace + "/"@ + service) {
            Some(e) => forall|i: int| 0 <= i < e.len() ==> edge_free_of(#[trigger] e[i], callee_arrow()),
            None => true,
        },
    ensures
        ({
            let r = dependencies_report_text(topo, service, namespace);
            let down = edges_under(reply_flows_view(topo.downstream@), namespace + "/"@ + service);
            &&& count_char(r, '→') == match down {
                Some(e) => e.len(),
                None => 0,
            }
            &&& forall|i: int| #![trigger down->0[i]] down is Some && 0 <= i < down->0.len() ==> occurs_in(
                "    → "@ + down->0[i].3 + "/"@ + down->0[i].2 + " ("@ + down->0[i].4 + " "@ + down->0[i].5 + ")\n"@,
                r,
            )
        }),
{
    let c = callee_arrow();
    let key = namespace + "/"@ + service;
    let up = edges_under(reply_flows_view(topo.upstream@), key);
    let down = edges_under(reply_flows_view(topo.downstream@), key);
    let up_text = side_text(up, true);
    let down_text = side_text(down, false);
    reveal_strlit("/");
    reveal_strlit("Dependencies for ");
    reveal_strlit(":\n");
    reveal_strlit("\n  Upstream (callers):\n");
    reveal_strlit("\n  Downstream (dependencies):\n");
    reveal_strlit("    (none)\n");
    assert(count_char("/"@, c) == 0) by {
        reveal_with_fuel(count_char, 2);
    }
    assert(count_char(":\n"@, c) == 0) by {
        reveal_with_fuel(count_char, 3);
    }
    assert(!"Dependencies for "@.contains(c));
    assert(!"\n  Upstream (callers):\n"@.contains(c));
    assert(!"\n  Downstream (dependencies):\n"@.contains(c));
    assert(!"    (none)\n"@.contains(c));
    lemma_count_absent("Dependencies for "@, c);
    lemma_count_absent("\n  Upstream (callers):\n"@, c);
    lemma_count_absent("\n  Downstream (dependencies):\n"@, c);
    lemma_count_absent("    (none)\n"@, c);
    lemma_count_absent(service, c);
    lemma_count_absent(namespace, c);
    match up {
        Some(e) => {
            if e.len() > 0 {
                lemma_caller_lines_free(e);
            }
        },
        None => {},
    }
    match down {
        Some(e) => {
            if e.len() > 0 {
                lemma_callee_lines_count(e);
            }
        },
        None => {},
    }
    let p1 = "Dependencies for "@ + key;
    let p2 = p1 + ":\n"@;
    let p3 = p2 + "\n  Upstream (callers):\n"@;
    let p4 = p3 + up_text;
    let p5 = p4 + "\n  Downstream (dependencies):\n"@;
    let r = p5 + down_text;
    assert(r == dependencies_report_text(topo, service, namespace));
    lemma_count_append(namespace, "/"@, c);
    lemma_count_append(namespace + "/"@, service, c);
    lemma_count_append("Dependencies for "@, key, c);
    lemma_count_append(p1, ":\n"@, c);
    lemma_count_append(p2, "\n  Upstream (callers):\n"@, c);
    lemma_count_append(p3, up_text, c);
    lemma_count_append(p4, "\n  Downstream (dependencies):\n"@, c);
    lemma_count_append(p5, down_text, c);
    assert forall|i: int| #![trigger down->0[i]] down is Some && 0 <= i < down->0.len() implies occurs_in(
        "    → "@ + down->0[i].3 + "/"@ + down->0[i].2 + " ("@ + down->0[i].4 + " "@ + down->0[i].5 + ")\n"@,
        r,
    ) by {
        let e = down->0;
        lemma_edge_lines_occur(e, false, i);
        assert(down_text == edge_lines(e, false));
        lemma_occurs_extend(callee_line(e[i]), down_text, p5, Seq::empty());
        assert(p5 + down_text + Seq::<char>::empty() =~= r);
    }
}

proof fn lemma_caller_lines_free(s: Seq<EdgeView>)
    requires
        forall|i: int| 0 <= i < s.len() ==> edge_free_of(#[trigger] s[i], callee_arrow()),
    ensures
        count_char(edge_lines(s, true), callee_arrow()) == 0,
    decreases s.len(),
{
    if s.len() > 0 {
        let init = s.drop_last();
        assert forall|i: int| 0 <= i < init.len() implies edge_free_of(#[trigger] init[i], callee_arrow()) by {
            assert(init[i] == s[i]);
        }
        lemma_caller_lines_free(init);
        let e = s.last();
        assert(edge_free_of(s[s.len() - 1], callee_arrow()));
        let c = callee_arrow();
        reveal_strlit("    ← ");
        reveal_strlit("/");
        reveal_strlit(" (");
        reveal_strlit(" ");
        reveal_strlit(")\n");
        assert(!"    ← "@.contains(c));
        assert(!"/"@.contains(c));
        assert(!" ("@.contains(c));
        assert(!" "@.contains(c));
        assert(!")\n"@.contains(c));
        assert(!caller_line(e).contains(c)) by {
            let l = caller_line(e);
            if l.contains(c) {
                let j = choose|j: int| 0 <= j < l.len() && l[j] == c;
                lemma_char_in_concat9(
                    "    ← "@, e.1, "/"@, e.0, " ("@, e.4, " "@, e.5, ")\n"@, c, j,
                );
            }
        }
        lemma_count_absent(caller_line(e), c);
        lemma_count_append(edge_lines(init, true), caller_line(e), c);
    }
}

proof fn lemma_char_in_concat9(
    a: Seq<char>, b: Seq<char>, c: Seq<char>, d: Seq<char>, e: Seq<char>, f: Seq<char>, g: Seq<char>,
    h: Seq<char>, i: Seq<char>, x: char, j: int,
)
    requires
        0 <= j < (a + b + c + d + e + f + g + h + i).len(),
        (a + b + c + d + e + f + g + h + i)[j] == x,
    ensures
        a.contains(x) || b.contains(x) || c.contains(x) || d.contains(x) || e.contains(x) || f.contains(x)
            || g.contains(x) || h.contains(x) || i.contains(x),
{
    if j < a.len() {
        assert(a[j] == x);
    } else if j < a.len() + b.len() {
        assert(b[j - a.len()] == x);
    } else if j < a.len() + b.len() + c.len() {
        assert(c[j - a.len() - b.len()] == x);
    } else if j < a.len() + b.len() + c.len() + d.len() {
        assert(d[j - a.len() - b.len() - c.len()] == x);
    } else if j < a.len() + b.len() + c.len() + d.len() + e.len() {
        assert(e[j - a.len() - b.len() - c.len() - d.len()] == x);
    } else if j < a.len() + b.len() + c.len() + d.len() + e.len() + f.len() {
        assert(f[j - a.len() - b.len() - c.len() - d.len() - e.len()] == x);
    } else if j < a.len() + b.len() + c.len() + d.len() + e.len() + f.len() + g.len() {
        assert(g[j - a.len() - b.len() - c.len() - d.len() - e.len() - f.len()] == x);
    } else if j < a.len() + b.len() + c.len() + d.len() + e.len() + f.len() + g.len() + h.len() {
        assert(h[j - a.len() - b.len() - c.len() - d.len() - e.len() - f.len() - g.len()] == x);
    } else {
        assert(i[j - a.len() - b.len() - c.len() - d.len() - e.len() - f.len() - g.len() - h.len()] == x);
    }
}

fn find_edges<'a>(lists: &'a Vec<(String, FlowList)>, key: &str) -> (r: Option<&'a Vec<TopologyEdge>>)
    ensures
        match r {
            Some(e) => edges_under(reply_flows_view(lists@), key@) == Some(edges_view(e@)),
            None => edges_under(reply_flows_view(lists@), key@) is None,
        },
{
    let ghost s = reply_flows_view(lists@);
    assert(s.skip(0) =~= s);
    let mut i: usize = 0;
    while i < lists.len()
        invariant
            s == reply_flows_view(lists@),
            i <= lists@.len(),
            edges_under(s, key@) == edges_under(s.skip(i as int), key@),
        decreases lists@.len() - i,
    {
        assert(s.skip(i as int).drop_first() =~= s.skip(i as int + 1));
        if same_text(lists[i].0.as_str(), key) {
            return Some(&lists[i].1.flows);
        }
        i = i + 1;
    }
    None
}

fn edges_text(edges: &Vec<TopologyEdge>, callers: bool) -> (r: String)
    ensures
        r@ == edge_lines(edges_view(edges@), callers),
{
    let ghost ev = edges_view(edges@);
    let mut out = String::new();
    let mut i: usize = 0;
    while i < edges.len()
        invariant
            i <= edges@.len(),
            ev == edges_view(edges@),
            out@ == edge_lines(ev.take(i as int), callers),
        decreases edges@.len() - i,
    {
        proof {
            assert(ev.take(i + 1).drop_last() =~= ev.take(i as int));
        }
        let e = &edges[i];
        let ghost before = out@;
        if callers {
            out.append("    ← ");
            out.append(e.source_namespace.as_str());
            out.append("/");
            out.append(e.source_service.as_str());
        } else {
            out.append("    → ");
            out.append(e.destination_namespace.as_str());
            out.append("/");
            out.append(e.destination_service.as_str());
        }
        out.append(" (");
        out.append(e.method.as_str());
        out.append(" ");
        out.append(e.path.as_str());
        out.append(")\n");
        assert(out@ =~= before + if callers {
            caller_line(ev[i as int])
        } else {
            callee_line(ev[i as int])
        });
        i = i + 1;
    }
    assert(ev.take(edges@.len() as int) =~= ev);
    out
}

fn side(lists: &Vec<(String, FlowList)>, key: &str, callers: bool) -> (r: String)
    ensures
        r@ == side_text(edges_under(reply_flows_view(lists@), key@), callers),
{
    match find_edges(lists, key) {
        Some(e) => {
            if e.len() > 0 {
                edges_text(e, callers)
            } else {
                "    (none)\n".to_string()
            }
        },
        None => "    (none)\n".to_string(),
    }
}

/// Upstream (who calls it) and downstream (what it calls) dependencies of
/// a service, or the known services when it is not in the graph.
pub fn dependencies_report(topo: &GetTopologyResponse, input: &GetServiceDepsInput) -> (r: String)
    ensures
        r@ == dependencies_report_text(*topo, input.service@, input.namespace@),
{
    let mut key = input.namespace.clone();
    key.append("/");
    key.append(input.service.as_str());
    let ghost keys = reply_keys(*topo);
    // Look the key up among the nodes, collecting the known keys.
    let mut known = String::new();
    let mut found = false;
    let mut i: usize = 0;
    while i < topo.nodes.len()
        invariant
            i <= topo.nodes@.len(),
            keys == reply_keys(*topo),
            known@ == comma_joined(keys.take(i as int)),
            found <==> keys.take(i as int).contains(key@),
        decreases topo.nodes@.len() - i,
    {
        proof {
            assert(keys.take(i + 1).drop_last() =~= keys.take(i as int));
            assert(keys[i as int] == topo.nodes@[i as int].0@);
        }
        let k = &topo.nodes[i].0;
        if i > 0 {
            known.append(", ");
        }
        known.append(k.as_str());
        proof {
            if i == 0 {
                assert(known@ =~= keys.take(1)[0]);
            }
        }
        if same_text(k.as_str(), key.as_str()) {
            found = true;
        }
        proof {
            let prev = keys.take(i as int);
            let next = keys.take(i + 1);
            assert(next =~= prev.push(keys[i as int]));
            if next.contains(key@) && !prev.contains(key@) {
                let j = choose|j: int| 0 <= j < next.len() && next[j] == key@;
                assert(j == i);
            }
            if prev.contains(key@) {
                let j = choose|j: int| 0 <= j < prev.len() && prev[j] == key@;
                assert(next[j] == key@);
            }
            if k@ == key@ {
                assert(next[i as int] == key@);
            }
        }
        i = i + 1;
    }
    assert(keys.take(topo.nodes@.len() as int) =~= keys);
    if !found {
        let mut out = "Service '".to_string();
        out.append(key.as_str());
        out.append("' not found in topology. Known services: ");
        out.append(known.as_str());
        return out;
    }
    let mut out = "Dependencies for ".to_string();
    out.append(key.as_str());
    out.append(":\n");
    out.append("\n  Upstream (callers):\n");
    out.append(side(&topo.upstream, key.as_str(), true).as_str());
    out.append("\n  Downstream (dependencies):\n");
    out.append(side(&topo.downstream, key.as_str(), false).as_str());
    out
}

/// The view of a node entry of a reply.
pub type ReplyNodeView = (Seq<char>, (Seq<char>, Seq<char>, Seq<char>));

/// A call line of the topology report: `    → method path → ns/service`.
pub open spec fn call_line(e: EdgeView) -> Seq<char> {
    "    → "@ + e.4 + " "@ + e.5 + " → "@ + e.3 + "/"@ + e.2 + "\n"@
}

/// The call lines of a list of edges.
pub open spec fn call_lines(s: Seq<EdgeView>) -> Seq<char>
    decreases s.len(),
{
    if s.len() == 0 {
        Seq::empty()
    } else {
        call_lines(s.drop_last()) + call_line(s.last())
    }
}

/// The block of one node: its name, its IP if known, and its calls.
pub open spec fn node_block(e: ReplyNodeView, down: Seq<(Seq<char>, Seq<EdgeView>)>) -> Seq<char> {
    let ip = if e.1.2.len() > 0 {
        "  (ip: "@ + e.1.2 + ")"@
    } else {
        Seq::empty()
    };
    "\n  "@ + e.1.1 + "/"@ + e.1.0 + ip + "\n"@ + match edges_under(down, e.0) {
        Some(es) => call_lines(es),
        None => Seq::empty(),
    }
}

/// The blocks of nodes in a given order.
pub open spec fn node_blocks(order: Seq<ReplyNodeView>, down: Seq<(Seq<char>, Seq<EdgeView>)>) -> Seq<char>
    decreases order.len(),
{
    if order.len() == 0 {
        Seq::empty()
    } else {
        node_blocks(order.drop_last(), down) + node_block(order.last(), down)
    }
}

/// The report of the topology tool for the nodes in a given order.
pub open spec fn topology_report_text(order: Seq<ReplyNodeView>, down: Seq<(Seq<char>, Seq<EdgeView>)>) -> Seq<char> {
    if order.len() == 0 {
        "No services discovered yet. The cluster may not have traffic flowing."@
    } else {
        "Service Topology ("@ + decimal_digits(order.len()) + " services):\n"@ + node_blocks(order, down)
    }
}

fn call_lines_text(edges: &Vec<TopologyEdge>) -> (r: String)
    ensures
        r@ == call_lines(edges_view(edges@)),
{
    let ghost ev = edges_view(edges@);
    let mut out = String::new();
    let mut i: usize = 0;
    while i < edges.len()
        invariant
            i <= edges@.len(),
            ev == edges_view(edges@),
            out@ == call_lines(ev.take(i as int)),
        decreases edges@.len() - i,
    {
        proof {
            assert(ev.take(i + 1).drop_last() =~= ev.take(i as int));
        }
        let e = &edges[i];
        let ghost before = out@;
        out.append("    → ");
        out.append(e.method.as_str());
        out.append(" ");
        out.append(e.path.as_str());
        out.append(" → ");
        out.append(e.destination_namespace.as_str());
        out.append("/");
        out.append(e.destination_service.as_str());
        out.append("\n");
        assert(out@ =~= before + call_line(ev[i as int]));
        i = i + 1;
    }
    assert(ev.take(edges@.len() as int) =~= ev);
    out
}

/// The full service topology: every node, sorted by key, with the calls it
/// makes.
pub fn topology_report(topo: &GetTopologyResponse) -> (r: String)
    ensures
        exists|order: Seq<ReplyNodeView>|
            permutes(order, reply_nodes_view(topo.nodes@)) && sorted_by_key(order) && r@
                == topology_report_text(order, reply_flows_view(topo.downstream@)),
{
    let ghost nv = reply_nodes_view(topo.nodes@);
    let ghost down = reply_flows_view(topo.downstream@);
    if topo.nodes.len() == 0 {
        let ghost order = Seq::<ReplyNodeView>::empty();
        assert(permuted_by(order, nv, Seq::<int>::empty()));
        assert(permutes(order, nv));
        assert(sorted_by_key(order));
        let r = "No services discovered yet. The cluster may not have traffic flowing.".to_string();
        assert(r@ == topology_report_text(order, down));
        return r;
    }
    let mut items: Vec<(String, usize)> = Vec::new();
    let mut i: usize = 0;
    while i < topo.nodes.len()
        invariant
            i <= topo.nodes@.len(),
            nv == reply_nodes_view(topo.nodes@),
            items@.len() == i,
            forall|j: int| 0 <= j < i ==> #[trigger] keyed_view(items@)[j] == (nv[j].0, j as usize),
        decreases topo.nodes@.len() - i,
    {
        let ghost before = keyed_view(items@);
        items.push((topo.nodes[i].0.clone(), i));
        assert(keyed_view(items@) =~= before.push((nv[i as int].0, i)));
        i = i + 1;
    }
    let ghost iv = keyed_view(items@);
    let sorted = sort_by_text(items);
    let ghost sv = keyed_view(sorted@);
    let ghost perm = choose|perm: Seq<int>| permuted_by(sv, iv, perm);
    let ghost order = Seq::new(sv.len(), |j: int| nv[perm[j]]);
    proof {
        assert forall|j: int| 0 <= j < sv.len() implies #[trigger] sv[j].1 == perm[j] && sv[j].0 == order[j].0 by {
            assert(sv[j] == iv[perm[j]]);
        }
        assert(permuted_by(order, nv, perm));
        assert(permutes(order, nv));
        assert forall|a: int, b: int| 0 <= a < b < order.len() implies !crate::order::text_lt(#[trigger] order[b].0, #[trigger] order[a].0) by {
            assert(sv[a].0 == order[a].0 && sv[b].0 == order[b].0);
            assert(!crate::order::text_lt(sv[b].0, sv[a].0));
        }
        assert(sorted_by_key(order));
    }
    let mut out = "Service Topology (".to_string();
    out.append(decimal_text(topo.nodes.len() as u64).as_str());
    out.append(" services):\n");
    let ghost header = out@;
    let mut j: usize = 0;
    while j < sorted.len()
        invariant
            j <= sorted@.len(),
            sv == keyed_view(sorted@),
            nv == reply_nodes_view(topo.nodes@),
            down == reply_flows_view(topo.downstream@),
            sv.len() == order.len(),
            order.len() == nv.len(),
            forall|q: int| 0 <= q < sv.len() ==> 0 <= #[trigger] sv[q].1 < nv.len() && order[q] == nv[sv[q].1 as int],
            out@ == header + node_blocks(order.take(j as int), down),
        decreases sorted@.len() - j,
    {
        proof {
            assert(order.take(j + 1).drop_last() =~= order.take(j as int));
        }
        let idx = sorted[j].1;
        assert(sv[j as int].1 == idx);
        let (key, node) = &topo.nodes[idx];
        let ghost e = order[j as int];
        assert(e == nv[idx as int]);
        let ghost before = out@;
        out.append("\n  ");
        out.append(node.namespace.as_str());
        out.append("/");
        out.append(node.service_name.as_str());
        if !node.ip.as_str().is_empty() {
            out.append("  (ip: ");
            out.append(node.ip.as_str());
            out.append(")");
        }
        out.append("\n");
        match find_edges(&topo.downstream, key.as_str()) {
            Some(edges) => {
                out.append(call_lines_text(edges).as_str());
            },
            None => {},
        }
        assert(out@ =~= before + node_block(e, down));
        j = j + 1;
    }
    proof {
        assert(order.take(sorted@.len() as int) =~= order);
        assert(decimal_digits(order.len()) == decimal_digits((topo.nodes.len() as u64) as nat));
    }
    out
}

} // verus!
