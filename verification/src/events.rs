//! The events that the index holds.

use vstd::prelude::*;

verus! {

/// What an event is about.
#[derive(Clone, Copy, Debug, PartialEq, Eq, Structural)]
pub enum EventType {
    Message,
    Topic,
    Name,
}

/// An event, as far as the index reads it.
#[derive(Clone, Debug, PartialEq, Eq)]
pub struct Event {
    pub event_type: EventType,
    /// The text that can be searched.
    pub content_value: String,
    pub event_id: String,
    pub sender: String,
    /// When the server got the event.
    pub server_ts: i64,
    pub room_id: String,
}

} // verus!
