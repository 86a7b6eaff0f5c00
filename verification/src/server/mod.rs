//! The routing of requests and the handling of connections.

pub mod listener;
pub mod router;
pub mod server;

pub use listener::{Connection, ListenerState, MAX_EVENTS};
pub use router::{Mux, Redirect, Route};
pub use server::Server;
