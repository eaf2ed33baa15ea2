//! The settings of the core service and of the MCP server, as their YAML
//! files give them.

use vstd::prelude::*;

verus! {

/// Settings of the core service.
pub struct QubitConfig {
    pub app: AppConfig,
    pub kubernetes: KubernetesConfig,
    pub db: DbConfig,
}

/// Ports and batching of the core service.
pub struct AppConfig {
    pub http_port: u16,
    pub grpc_port: u16,
    /// Batch size before flushing to ClickHouse.
    pub ebpf_bulk_insertion_max_size: u64,
    /// Periodic flush interval.
    pub ebpf_flush_interval_secs: u64,
    pub upstream: String,
}

/// Kubernetes settings of the core service.
pub struct KubernetesConfig {
    pub in_cluster: bool,
    pub namespace: String,
    pub leader_election: LeaderElectionConfig,
}

/// Leader election settings.
pub struct LeaderElectionConfig {
    pub enabled: bool,
    pub lease_duration: String,
    pub renew_deadline: String,
    pub retry_period: String,
}

/// ClickHouse connection of the core service.
pub struct DbConfig {
    pub host: String,
    pub port: u16,
    pub user: String,
    pub password: String,
    pub table: TableConfig,
}

/// Table names of the core service.
pub struct TableConfig {
    pub ebpf_network_events: String,
    pub k8s_resource_events: String,
}

/// Settings of the MCP server.
pub struct McpConfig {
    pub qubit_core: CoreConfig,
    pub clickhouse: ClickHouseConfig,
}

/// Where the MCP server reaches the core service.
pub struct CoreConfig {
    pub grpc_address: String,
}

/// ClickHouse connection of the MCP server.
pub struct ClickHouseConfig {
    pub host: String,
    pub port: u16,
    pub user: String,
    pub password: String,
    pub database: String,
    pub ebpf_table: String,
    pub k8s_table: String,
}

} // verus!
