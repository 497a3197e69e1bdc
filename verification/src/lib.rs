//! Message routing for a websocket transport plugged into a game loop.
//!
//! Raw network events are sorted into per-message-type queues and into a
//! buffer of connection events; consumers later drain the queue of the
//! message type they registered for.
pub mod shared;
pub mod systems;
pub mod client;
