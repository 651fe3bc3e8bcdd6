//! Typed events passed between the engine's systems: a kind tag plus a
//! text payload.
use vstd::prelude::*;

verus! {

/// The kinds of event the engine routes.
#[derive(Clone, Copy, Debug)]
pub enum EventType {
    /// The payload is a wire line to send to the server.
    NetSend,
}

/// One event: its kind and its text payload.
#[derive(Debug)]
pub struct Event {
    pub etype: EventType,
    pub event: String,
}

impl Event {
    pub fn new(event_type: EventType, event: String) -> (r: Self)
        ensures
            r.etype == event_type,
            r.event == event,
    {
        Self { etype: event_type, event }
    }
}

} // verus!
