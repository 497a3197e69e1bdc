pub mod event;
pub mod resources;

pub use event::{ConnectionHandle, Enveloppe, NetworkEvent, NetworkEvents};
pub use resources::{Connections, Queued};
