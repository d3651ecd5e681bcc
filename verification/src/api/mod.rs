//! The request and response types of the node's HTTP API, and the checks
//! and decisions its handlers make on plain values.

pub mod config;
pub mod middleware;
pub mod node;
pub mod social;
pub mod payments;
pub mod governance;
pub mod marketplace;
pub mod messaging;
pub mod identity;
pub mod files;
pub mod ai;
pub mod events;
pub mod kv_ns;
pub mod store;
