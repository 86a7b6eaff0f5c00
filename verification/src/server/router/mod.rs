//! Routes, and the multiplexer that selects one for a request.

pub mod mux;
pub mod route;

pub use mux::Mux;
pub use route::{Redirect, Route};
