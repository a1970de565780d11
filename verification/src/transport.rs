//! The pieces of a transport that carries events between bus instances in
//! different processes: the messages, the errors, and the handles of
//! subscriptions and forwarders.
use vstd::prelude::*;
use crate::error::prefixed;

verus! {

/// A message that came over a transport.
#[derive(Clone, Debug)]
pub struct TransportMessage {
    /// The event name.
    pub event_name: String,
    /// The event, serialized as JSON.
    pub payload: String,
}

/// A live subscription on a transport.
pub trait TransportSubscription {
    /// Stops receiving messages.
    fn stop(&self);

    /// Whether messages still come.
    fn is_active(&self) -> bool;
}

/// A running task that forwards events from a transport to a bus.
pub trait ForwarderHandle {
    /// Stops the task.
    fn stop(&self);

    /// Whether the task has stopped.
    fn is_finished(&self) -> bool;
}

/// What can go wrong in a transport.
#[derive(Debug)]
pub enum TransportError {
    Connection(String),
    Publish(String),
    Subscribe(String),
    Serialization(String),
}

/// The text of an error.
pub open spec fn transport_error_message(e: TransportError) -> Seq<char> {
    match e {
        TransportError::Connection(m) => "Connection error: "@ + m@,
        TransportError::Publish(m) => "Publish error: "@ + m@,
        TransportError::Subscribe(m) => "Subscribe error: "@ + m@,
        TransportError::Serialization(m) => "Serialization error: "@ + m@,
    }
}

impl TransportError {
    /// The text of the error.
    pub fn message(&self) -> (r: String)
        ensures
            r@ == transport_error_message(*self),
    {
        match self {
            TransportError::Connection(m) => prefixed("Connection error: ", m.as_str()),
            TransportError::Publish(m) => prefixed("Publish error: ", m.as_str()),
            TransportError::Subscribe(m) => prefixed("Subscribe error: ", m.as_str()),
            TransportError::Serialization(m) => prefixed("Serialization error: ", m.as_str()),
        }
    }
}

} // verus!
