//! The reading side of connections: what was received, and whether it is a request.

pub mod listener;

pub use listener::{Connection, ListenerState, MAX_EVENTS};
