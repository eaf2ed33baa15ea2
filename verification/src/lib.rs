//! Verified core of a service-dependency mapper: topology graph, host and
//! payload parsing, event ingestion decisions and their supporting types.

pub mod text;
pub mod assoc;
pub mod topology;
pub mod subgraph;
pub mod reach;
pub mod laws;
pub mod host;
pub mod payload;
pub mod registry;
pub mod model;
pub mod caches;
pub mod aggregator;
pub mod envoy;
pub mod query;
pub mod reply;
pub mod agent;
pub mod loadgen;
pub mod config;
pub mod agent_config;
pub mod loader;
pub mod filter;
pub mod dispatch;
pub mod mcp;
pub mod kube;
pub mod agent_kube;
pub mod agent_schedule;
pub mod sql;
pub mod order;
pub mod display;
