//! The configuration as the server holds it once it is read.

use crate::string_map::StringMap;
use vstd::prelude::*;

verus! {

/// How sessions are kept for a virtual host.
#[derive(Debug, Clone)]
pub struct SessionConfig {
    pub enabled: bool,
    pub timeout_minutes: i64,
    pub cookie_path: String,
    pub cookie_secure: bool,
    pub cookie_http_only: bool,
}

/// Sessions are off unless the configuration turns them on.
pub fn default_enabled() -> (r: bool)
    ensures
        !r,
{
    false
}

/// A session lasts sixty minutes unless the configuration says otherwise.
pub fn default_timeout() -> (r: i64)
    ensures
        r == 60,
{
    60
}

/// The session cookie is valid for the whole site unless the configuration says
/// otherwise.
pub fn default_cookie_path() -> (r: String)
    ensures
        r@ == "/"@,
{
    "/".to_owned()
}

/// The session cookie is not restricted to secure channels by default.
pub fn default_cookie_secure() -> (r: bool)
    ensures
        !r,
{
    false
}

/// The session cookie is hidden from scripts by default.
pub fn default_cookie_http_only() -> (r: bool)
    ensures
        r,
{
    true
}

impl Default for SessionConfig {
    /// The settings of a virtual host that says nothing of sessions: none are kept.
    fn default() -> (r: SessionConfig)
        ensures
            !r.enabled,
            r.timeout_minutes == 0,
            r.cookie_path@ == Seq::<char>::empty(),
            !r.cookie_secure,
            !r.cookie_http_only,
    {
        SessionConfig {
            enabled: false,
            timeout_minutes: 0,
            cookie_path: String::new(),
            cookie_secure: false,
            cookie_http_only: false,
        }
    }
}

/// The whole configuration: global settings and virtual hosts.
#[derive(Debug, Clone)]
pub struct Config {
    pub global: GlobalConfig,
    pub servers: Vec<ServerConfig>,
}

/// Settings that apply to every virtual host.
#[derive(Debug, Clone)]
pub struct GlobalConfig {
    pub client_max_body_size: Option<String>,
    pub response_format: Option<String>,
    pub cgi: StringMap,
    pub sessions: SessionConfig,
}

/// The error pages of a virtual host: status code, written in base ten, to file path.
#[derive(Debug, Clone)]
pub struct ErrorPages {
    pub pages: StringMap,
}

/// A virtual host.
#[derive(Debug, Clone)]
pub struct ServerConfig {
    pub server_name: Vec<String>,
    pub error_pages: ErrorPages,
    pub host: String,
    pub ports: Vec<u16>,
    pub is_default: bool,
    pub routes: Vec<RouteConfig>,
    pub client_max_body_size: Option<String>,
    pub sessions: SessionConfig,
}

/// A route of a virtual host.
#[derive(Debug, Clone)]
pub struct RouteConfig {
    pub path: String,
    pub root: Option<String>,
    pub index: Option<String>,
    pub methods: Vec<String>,
    pub directory_listing: bool,
    pub redirect: Option<RedirectConfig>,
    pub cgi: Option<StringMap>,
    pub client_max_body_size: Option<String>,
    pub sessions_required: bool,
}

/// Where a route redirects to, and with which status code.
#[derive(Debug, Clone)]
pub struct RedirectConfig {
    pub url: String,
    pub code: u16,
}

} // verus!
