//! The telemetry interface that observes the bus's publish/subscribe lifecycle.
//!
//! Durations are in nanoseconds.
use vstd::prelude::*;

verus! {

/// Callbacks for the bus's lifecycle events; implement it to monitor a bus.
pub trait Telemetry {
    /// An event is being published to `receivers` subscribers.
    fn on_publish(&mut self, event_name: &str, receivers: usize);

    /// A publish finished after `elapsed_nanos`.
    fn on_publish_complete(&mut self, event_name: &str, elapsed_nanos: u128);

    /// A subscriber registered.
    fn on_subscribe(&mut self, event_name: &str, sub_id: usize);

    /// A handler is about to run.
    fn on_handler_start(&mut self, event_name: &str, sub_id: usize);

    /// A handler finished; `error` holds its error when it failed.
    fn on_handler_complete(&mut self, event_name: &str, sub_id: usize, elapsed_nanos: u128, error: Option<&str>);

    /// A subscriber fell behind and missed `lagged_count` events.
    fn on_handler_lagged(&mut self, event_name: &str, sub_id: usize, lagged_count: usize);
}

/// Telemetry that does nothing.
pub struct NoopTelemetry;

impl Telemetry for NoopTelemetry {
    fn on_publish(&mut self, _event_name: &str, _receivers: usize) {
    }

    fn on_publish_complete(&mut self, _event_name: &str, _elapsed_nanos: u128) {
    }

    fn on_subscribe(&mut self, _event_name: &str, _sub_id: usize) {
    }

    fn on_handler_start(&mut self, _event_name: &str, _sub_id: usize) {
    }

    fn on_handler_complete(&mut self, _event_name: &str, _sub_id: usize, _elapsed_nanos: u128, _error: Option<&str>) {
    }

    fn on_handler_lagged(&mut self, _event_name: &str, _sub_id: usize, _lagged_count: usize) {
    }
}

} // verus!
