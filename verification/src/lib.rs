//! The scheduling core of a remote execution service: a registry of workers,
//! a store of operations, and the dispatch pass that matches the one to the
//! other. Every state change is stated over a mathematical model of the
//! scheduler and proved to keep the worker and operation records consistent.

pub mod error;
pub mod action_messages;
pub mod platform_properties;
pub mod worker;
pub mod operation_state_manager;
pub mod scheduler_state;
pub mod invariants;
pub mod worker_scheduler;
pub mod simple_scheduler;
pub mod laws;
pub mod monitoring_server;
pub mod monitoring_laws;
