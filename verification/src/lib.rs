//! An event bus library: topic patterns, trigger rules with payload
//! conditions, an event registry, an execution log, retry and dead-letter
//! decisions, server-sent-event framing, and the Redis bridge's decisions.
pub mod topic;
pub mod json;
pub mod text;
pub mod condition;
pub mod sort;
pub mod clock;
pub mod telemetry;
pub mod execution_log;
pub mod sse;
pub mod naming;
pub mod registry;
pub mod trigger;
pub mod error;
pub mod event;
pub mod handler;
pub mod transport;
pub mod bus;
pub mod redis_bridge;
pub mod bus_def;
