//! The statements the core service sends to ClickHouse.

use vstd::prelude::*;
use crate::text::{decimal_digits, decimal_text};

verus! {

/// ClickHouse schema of the stored network events.
pub open spec fn ebpf_table_schema() -> Seq<char> {
    "\n        timestamp_ns UInt64,\n        src_service String,\n        src_namespace String,\n        dst_service String,\n        dst_namespace String,\n        src_port UInt16,\n        dst_port UInt16,\n        method String,\n        path String,\n        host String\n    "@
}

/// ClickHouse schema of the stored Kubernetes resource events.
pub open spec fn k8s_table_schema() -> Seq<char> {
    "\n        event_time DateTime DEFAULT now(),\n        resource_type String,\n        name String,\n        namespace String,\n        event_type String,\n        labels String,\n        resource_data String\n    "@
}

/// The network-events table, kept 7 days.
pub fn create_ebpf_table_sql(table: &str) -> (r: String)
    ensures
        r@ == "CREATE TABLE IF NOT EXISTS "@ + table@ + " ("@ + ebpf_table_schema()
            + ")\n            ENGINE = MergeTree()\n            ORDER BY (timestamp_ns, src_service, dst_service)\n            TTL toDateTime(intDiv(timestamp_ns, 1000000000)) + INTERVAL 7 DAY"@,
{
    let mut q = "CREATE TABLE IF NOT EXISTS ".to_string();
    q.append(table);
    q.append(" (");
    q.append("\n        timestamp_ns UInt64,\n        src_service String,\n        src_namespace String,\n        dst_service String,\n        dst_namespace String,\n        src_port UInt16,\n        dst_port UInt16,\n        method String,\n        path String,\n        host String\n    ");
    q.append(")\n            ENGINE = MergeTree()\n            ORDER BY (timestamp_ns, src_service, dst_service)\n            TTL toDateTime(intDiv(timestamp_ns, 1000000000)) + INTERVAL 7 DAY");
    q
}

/// Gives a network-events table made before the retention rule the same
/// 7-day rule.
pub fn alter_ebpf_ttl_sql(table: &str) -> (r: String)
    ensures
        r@ == "ALTER TABLE "@ + table@
            + " MODIFY TTL toDateTime(intDiv(timestamp_ns, 1000000000)) + INTERVAL 7 DAY"@,
{
    let mut q = "ALTER TABLE ".to_string();
    q.append(table);
    q.append(" MODIFY TTL toDateTime(intDiv(timestamp_ns, 1000000000)) + INTERVAL 7 DAY");
    q
}

/// The Kubernetes-events table, kept 1 day.
pub fn create_k8s_table_sql(table: &str) -> (r: String)
    ensures
        r@ == "CREATE TABLE IF NOT EXISTS "@ + table@ + " ("@ + k8s_table_schema()
            + ")\n            ENGINE = MergeTree()\n            ORDER BY (event_time, namespace, resource_type)\n            TTL event_time + INTERVAL 1 DAY"@,
{
    let mut q = "CREATE TABLE IF NOT EXISTS ".to_string();
    q.append(table);
    q.append(" (");
    q.append("\n        event_time DateTime DEFAULT now(),\n        resource_type String,\n        name String,\n        namespace String,\n        event_type String,\n        labels String,\n        resource_data String\n    ");
    q.append(")\n            ENGINE = MergeTree()\n            ORDER BY (event_time, namespace, resource_type)\n            TTL event_time + INTERVAL 1 DAY");
    q
}

/// The row count of a table, in a column `c`.
pub fn count_sql(table: &str) -> (r: String)
    ensures
        r@ == "SELECT count() AS c FROM "@ + table@,
{
    let mut q = "SELECT count() AS c FROM ".to_string();
    q.append(table);
    q
}

/// Page `page` of `page_size` rows of a table, newest first by `column`;
/// the offset `page * page_size` must fit a `u64`.
pub fn page_sql(table: &str, column: &str, page: u64, page_size: u64) -> (r: String)
    requires
        page * page_size <= u64::MAX,
    ensures
        r@ == "SELECT * FROM "@ + table@ + " ORDER BY "@ + column@ + " DESC LIMIT "@ + decimal_digits(
            page_size as nat,
        ) + " OFFSET "@ + decimal_digits((page * page_size) as nat),
{
    let offset = page * page_size;
    let mut q = "SELECT * FROM ".to_string();
    q.append(table);
    q.append(" ORDER BY ");
    q.append(column);
    q.append(" DESC LIMIT ");
    q.append(decimal_text(page_size).as_str());
    q.append(" OFFSET ");
    q.append(decimal_text(offset).as_str());
    q
}

/// The network events sent by a service.
pub fn events_by_service_sql(table: &str, service_name: &str) -> (r: String)
    ensures
        r@ == "SELECT * FROM "@ + table@ + " WHERE src_service = '"@ + service_name@ + "'"@,
{
    let mut q = "SELECT * FROM ".to_string();
    q.append(table);
    q.append(" WHERE src_service = '");
    q.append(service_name);
    q.append("'");
    q
}

/// The network events between two times, both included.
pub fn events_in_range_sql(table: &str, start_time: u64, end_time: u64) -> (r: String)
    ensures
        r@ == "SELECT * FROM "@ + table@ + " WHERE timestamp_ns >= "@ + decimal_digits(
            start_time as nat,
        ) + " AND timestamp_ns <= "@ + decimal_digits(end_time as nat),
{
    let mut q = "SELECT * FROM ".to_string();
    q.append(table);
    q.append(" WHERE timestamp_ns >= ");
    q.append(decimal_text(start_time).as_str());
    q.append(" AND timestamp_ns <= ");
    q.append(decimal_text(end_time).as_str());
    q
}

} // verus!
