//! The configuration of the server and its validation.

pub mod boot;
pub mod config;
pub mod validator;

pub use config::{
    Config, ErrorPages, GlobalConfig, RedirectConfig, RouteConfig, ServerConfig, SessionConfig,
};
pub use validator::{ConfigValidator, ValidatorError};
