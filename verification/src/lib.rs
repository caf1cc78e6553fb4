//! Fleet policy controller: the state and the decisions of a controller that
//! enrolls nodes, keeps their policy rules and reconciles them with what the
//! agents report. Everything here is executable Rust proved against its
//! contracts; sockets, databases and files live in the surrounding program.

pub mod crypto;
pub mod event_bus;
pub mod grpc;
pub mod http;
pub mod ids;
pub mod json;
pub mod metrics_parser;
pub mod metrics_store;
pub mod node_registry;
pub mod operators;
pub mod order;
pub mod pending;
pub mod proto;
pub mod rbac;
pub mod reconciliation;
pub mod rule_lifecycle_bus;
pub mod security;
pub mod session;
pub mod store;
pub mod strmap;
pub mod suricata_sync;
pub mod text;
pub mod timestamp;
pub mod ttl_reaper;
