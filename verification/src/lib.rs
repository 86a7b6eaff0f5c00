//! A configuration-driven HTTP/1.1 server core: request parsing, response
//! assembly, multipart decoding, routing decisions, sessions and configuration
//! validation, each with a machine-checked contract.

pub mod text;
pub mod chars;
pub mod foreign;
pub mod string_map;
pub mod http;
pub mod utils;
pub mod config;
pub mod cgi;
pub mod server;
