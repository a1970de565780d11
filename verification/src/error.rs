//! The errors of event bus operations.
use vstd::prelude::*;

verus! {

/// What can go wrong on the bus.
#[derive(Debug)]
pub enum EventBusError {
    /// An event could not be published.
    PublishFailed(String),
    /// A subscriber failed while handling an event.
    SubscriberError(String),
    /// No such topic.
    TopicNotFound(String),
    /// The channel is closed.
    ChannelClosed,
    /// The transport under the bus failed.
    TransportError(String),
}

/// The text of an error.
pub open spec fn bus_error_message(e: EventBusError) -> Seq<char> {
    match e {
        EventBusError::PublishFailed(m) => "Event publish failed: "@ + m@,
        EventBusError::SubscriberError(m) => "Subscriber error: "@ + m@,
        EventBusError::TopicNotFound(m) => "Topic not found: "@ + m@,
        EventBusError::ChannelClosed => "Channel closed"@,
        EventBusError::TransportError(m) => "Transport error: "@ + m@,
    }
}

/// `prefix` followed by `detail`.
pub fn prefixed(prefix: &str, detail: &str) -> (r: String)
    ensures
        r@ == prefix@ + detail@,
{
    let mut s = String::from_str(prefix);
    s.append(detail);
    s
}

impl EventBusError {
    /// The text of the error.
    pub fn message(&self) -> (r: String)
        ensures
            r@ == bus_error_message(*self),
    {
        match self {
            EventBusError::PublishFailed(m) => prefixed("Event publish failed: ", m.as_str()),
            EventBusError::SubscriberError(m) => prefixed("Subscriber error: ", m.as_str()),
            EventBusError::TopicNotFound(m) => prefixed("Topic not found: ", m.as_str()),
            EventBusError::ChannelClosed => String::from_str("Channel closed"),
            EventBusError::TransportError(m) => prefixed("Transport error: ", m.as_str()),
        }
    }
}

} // verus!
