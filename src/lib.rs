//! Nexum: a durable workflow engine. Workflows are graphs of typed nodes;
//! executions advance by scheduling ready nodes, leasing them to workers and
//! recording outcomes in an append-only event log.

pub mod text;
pub mod metrics;
pub mod condition;
pub mod config;
pub mod ir;
pub mod json;
pub mod scheduler;
pub mod store;
pub mod engine;
pub mod offload;
pub mod dispatch;
pub mod completion;
pub mod coordinator;
pub mod control;
pub mod laws;
