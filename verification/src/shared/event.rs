use vstd::prelude::*;

verus! {

/// The JSON value carried, untouched, as the payload of an envelope.
/// The library never looks inside it: it only moves it from the queue it
/// was routed to into the hands of the consumer of its message type.
#[verifier::external_type_specification]
#[verifier::external_body]
pub struct ExJsonValue(serde_json::Value);

/// The error an `Error` event reports, carried to the application as it is.
#[verifier::external_type_specification]
#[verifier::external_body]
pub struct ExAnyhowError(anyhow::Error);

/// Identifies the peer a network event comes from (the 128 bits of its UUID).
#[derive(Clone, Copy, Debug, PartialEq, Eq, Hash)]
pub struct ConnectionHandle {
    pub uuid: u128,
}

/// A decoded message: the name of its type and its still-untyped payload.
#[derive(Debug)]
pub struct Enveloppe {
    pub message_type: String,
    pub payload: serde_json::Value,
}

/// What the transport reports: a peer connected or left, a binary message
/// arrived, or an error occurred (with the peer it concerns, if any).
#[derive(Debug)]
pub enum NetworkEvent {
    Connected(ConnectionHandle),
    Disconnected(ConnectionHandle),
    Message(ConnectionHandle, Vec<u8>),
    Error(Option<ConnectionHandle>, anyhow::Error),
}

/// The events other than messages, in the order they arrived, waiting to be
/// handed to the application.
pub struct NetworkEvents(pub Vec<NetworkEvent>);

impl NetworkEvents {
    /// An empty buffer.
    pub fn new() -> (r: NetworkEvents)
        ensures
            r.0@ == Seq::<NetworkEvent>::empty(),
    {
        NetworkEvents(Vec::new())
    }
}

} // verus!
