//! The gateway to interpreters of scripts.

pub mod php;
