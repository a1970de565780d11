//! The trait of the events a bus carries.
use vstd::prelude::*;

verus! {

/// An event type: its name routes it and topic patterns match against it.
pub trait Event: Clone {
    /// The unique name of this event type, such as `user.created`.
    fn event_name() -> &'static str;

    /// The topic of this event type; its name unless it says otherwise, so
    /// that several event types can share one, such as `user`.
    fn topic() -> &'static str {
        Self::event_name()
    }
}

} // verus!
