use kang::config::boot::{KangStarter, PortOutcome, PortSearch, PortStep, MAX_FALLBACK_PORTS};
use kang::config::config::{
    default_cookie_http_only, default_cookie_path, default_cookie_secure, default_enabled,
    default_timeout, Config, ErrorPages, GlobalConfig, RedirectConfig, RouteConfig, ServerConfig,
    SessionConfig,
};
use kang::config::validator::{ConfigValidator, ValidatorError, Warning};
use kang::string_map::StringMap;

fn route(path: &str, methods: &[&str]) -> RouteConfig {
    RouteConfig {
        path: path.to_string(),
        root: None,
        index: None,
        methods: methods.iter().map(|m| m.to_string()).collect(),
        directory_listing: false,
        redirect: None,
        cgi: None,
        client_max_body_size: None,
        sessions_required: false,
    }
}

fn server(host: &str, ports: &[u16]) -> ServerConfig {
    ServerConfig {
        server_name: vec!["example".to_string()],
        error_pages: ErrorPages { pages: StringMap::new() },
        host: host.to_string(),
        ports: ports.to_vec(),
        is_default: false,
        routes: vec![route("/", &["GET"])],
        client_max_body_size: None,
        sessions: SessionConfig::default(),
    }
}

fn config(servers: Vec<ServerConfig>) -> Config {
    Config {
        global: GlobalConfig {
            client_max_body_size: None,
            response_format: None,
            cgi: StringMap::new(),
            sessions: SessionConfig::default(),
        },
        servers,
    }
}

#[test]
fn session_defaults() {
    assert!(!default_enabled());
    assert_eq!(default_timeout(), 60);
    assert_eq!(default_cookie_path(), "/");
    assert!(!default_cookie_secure());
    assert!(default_cookie_http_only());
    let d = SessionConfig::default();
    assert!(!d.enabled);
    assert_eq!(d.timeout_minutes, 0);
    assert_eq!(d.cookie_path, "");
    assert!(!d.cookie_secure);
    assert!(!d.cookie_http_only);
}

#[test]
fn good_configuration_is_accepted() {
    let c = config(vec![server("127.0.0.1", &[8080, 8081]), server("0.0.0.0", &[9090])]);
    assert!(ConfigValidator::validate(&c).is_ok());
    assert!(ConfigValidator::validate(&config(Vec::new())).is_ok());
    assert!(ConfigValidator::warnings(&c).is_empty());
}

#[test]
fn same_port_on_two_hosts_is_refused() {
    let c = config(vec![server("127.0.0.1", &[8080]), server("0.0.0.0", &[9090, 8080])]);
    assert!(matches!(ConfigValidator::validate(&c), Err(ValidatorError::DuplicatePort(8080))));
    let many = config(vec![
        server("a", &[1, 2, 3]),
        server("b", &[4, 5]),
        server("c", &[6, 5, 1]),
    ]);
    assert!(matches!(ConfigValidator::validate(&many), Err(ValidatorError::DuplicatePort(5))));
}

#[test]
fn same_port_twice_on_one_host_is_refused() {
    let c = config(vec![server("127.0.0.1", &[8080, 8080])]);
    assert!(matches!(ConfigValidator::validate(&c), Err(ValidatorError::DuplicatePort(8080))));
}

#[test]
fn host_and_ports_are_required() {
    let no_host = config(vec![server("", &[8080])]);
    assert!(matches!(ConfigValidator::validate(&no_host), Err(ValidatorError::NoPortsSpecified)));
    let no_ports = config(vec![server("h", &[1]), server("h", &[])]);
    assert!(matches!(ConfigValidator::validate(&no_ports), Err(ValidatorError::NoPortsSpecified)));
}

#[test]
fn duplicate_port_is_reported_before_a_missing_host() {
    let c = config(vec![server("", &[1]), server("a", &[7]), server("b", &[7])]);
    assert!(matches!(ConfigValidator::validate(&c), Err(ValidatorError::DuplicatePort(7))));
    let hidden = config(vec![server("", &[7]), server("b", &[7])]);
    assert!(matches!(ConfigValidator::validate(&hidden), Err(ValidatorError::NoPortsSpecified)));
}

#[test]
fn body_size_format() {
    assert!(ConfigValidator::validate_body_size("10M").is_ok());
    assert!(ConfigValidator::validate_body_size("  10m ").is_ok());
    assert!(ConfigValidator::validate_body_size("1k").is_ok());
    assert!(ConfigValidator::validate_body_size("0G").is_ok());
    assert!(matches!(
        ConfigValidator::validate_body_size("10"),
        Err(ValidatorError::InvalidBodySizeFormat(t)) if t == "10"
    ));
    assert!(matches!(
        ConfigValidator::validate_body_size(" abck "),
        Err(ValidatorError::InvalidBodySizeFormat(t)) if t == "ABCK"
    ));
    assert!(matches!(
        ConfigValidator::validate_body_size(""),
        Err(ValidatorError::InvalidBodySizeFormat(t)) if t.is_empty()
    ));
    assert!(ConfigValidator::validate_body_size("K").is_err());
    assert!(ConfigValidator::validate_body_size("1.5M").is_err());
    assert!(ConfigValidator::validate_body_size("10 M").is_err());
    assert!(ConfigValidator::validate_body_size("99999999999999999999K").is_err());
}

#[test]
fn acceptable_roots() {
    assert!(ConfigValidator::validate_path("./www"));
    assert!(ConfigValidator::validate_path("/var/www"));
    assert!(ConfigValidator::validate_path("/"));
    assert!(!ConfigValidator::validate_path("www"));
    assert!(!ConfigValidator::validate_path("../www"));
    assert!(!ConfigValidator::validate_path(""));
    assert!(!ConfigValidator::validate_path("."));
}

#[test]
fn warnings_in_order() {
    let mut first = server("h", &[1]);
    first.server_name = vec!["ok".to_string(), String::new()];
    first.client_max_body_size = Some("huge".to_string());
    let mut bad_route = route("/files", &["GET", "FETCH", "trace"]);
    bad_route.root = Some("www".to_string());
    bad_route.redirect = Some(RedirectConfig { url: "/x".to_string(), code: 309 });
    bad_route.client_max_body_size = Some("12".to_string());
    let mut fine = route("/fine", &["connect"]);
    fine.root = Some("./www".to_string());
    fine.redirect = Some(RedirectConfig { url: "/x".to_string(), code: 300 });
    fine.client_max_body_size = Some("12k".to_string());
    first.routes = vec![
        route("", &["GET"]),
        route("relative", &["GET"]),
        bad_route,
        route("/files", &["GET"]),
        route("/none", &[]),
        fine,
        route("relative", &["GET"]),
    ];
    let mut no_ports = server("h2", &[]);
    no_ports.server_name = vec![String::new()];
    no_ports.client_max_body_size = Some("bad".to_string());
    let mut no_host = server("", &[2]);
    no_host.server_name = vec![String::new()];
    let mut c = config(vec![first, no_ports, no_host]);
    c.global.client_max_body_size = Some("1T".to_string());
    assert_eq!(
        ConfigValidator::warnings(&c),
        vec![
            Warning::GlobalBodySize,
            Warning::EmptyServerName { server: 0, name: 1 },
            Warning::ServerBodySize { server: 0 },
            Warning::RoutePath { server: 0, route: 0 },
            Warning::RoutePath { server: 0, route: 1 },
            Warning::UnknownMethod { server: 0, route: 2, method: 1 },
            Warning::Root { server: 0, route: 2 },
            Warning::RedirectCode { server: 0, route: 2 },
            Warning::RouteBodySize { server: 0, route: 2 },
            Warning::DuplicateRoute { server: 0, route: 3 },
            Warning::NoMethods { server: 0, route: 4 },
            Warning::RoutePath { server: 0, route: 6 },
            Warning::EmptyServerName { server: 1, name: 0 },
        ]
    );
}

#[test]
fn redirect_codes_from_300_to_308_raise_no_warning() {
    for (code, warned) in [(299u16, true), (300, false), (304, false), (308, false), (309, true), (200, true)] {
        let mut s = server("h", &[1]);
        let mut r = route("/r", &["GET"]);
        r.redirect = Some(RedirectConfig { url: "/n".to_string(), code });
        s.routes = vec![r];
        let expected = if warned { vec![Warning::RedirectCode { server: 0, route: 0 }] } else { Vec::new() };
        assert_eq!(ConfigValidator::warnings(&config(vec![s])), expected);
    }
}

#[test]
fn a_bound_port_ends_the_search() {
    let start = KangStarter::first_attempt(8080);
    assert_eq!(start, PortSearch { configured: 8080, current: 8080, attempt: 0 });
    let (same, step) = KangStarter::next_attempt(start, PortOutcome::Bound);
    assert_eq!(same, start);
    assert_eq!(step, PortStep::Listening { port: 8080, substituted: false });
    let (next, step) = KangStarter::next_attempt(start, PortOutcome::InUse);
    assert_eq!(step, PortStep::Try(8081));
    assert_eq!(next, PortSearch { configured: 8080, current: 8081, attempt: 1 });
    let (_, step) = KangStarter::next_attempt(next, PortOutcome::Bound);
    assert_eq!(step, PortStep::Listening { port: 8081, substituted: true });
}

#[test]
fn a_hundred_successors_are_tried() {
    let mut search = KangStarter::first_attempt(1000);
    let mut tried = vec![search.current];
    loop {
        let outcome = if tried.len() % 2 == 0 { PortOutcome::InUse } else { PortOutcome::BindFailed };
        let (next, step) = KangStarter::next_attempt(search, outcome);
        match step {
            PortStep::Try(p) => {
                assert_eq!(p, next.current);
                tried.push(p);
                search = next;
            }
            PortStep::GiveUp => break,
            PortStep::Listening { .. } => panic!("nothing was bound"),
        }
    }
    assert_eq!(tried.len() as u32, MAX_FALLBACK_PORTS + 1);
    assert_eq!(tried[0], 1000);
    assert_eq!(*tried.last().unwrap(), 1100);
}

#[test]
fn the_search_stops_at_the_last_port() {
    let start = KangStarter::first_attempt(65534);
    let (next, step) = KangStarter::next_attempt(start, PortOutcome::InUse);
    assert_eq!(step, PortStep::Try(65535));
    let (_, step) = KangStarter::next_attempt(next, PortOutcome::InUse);
    assert_eq!(step, PortStep::GiveUp);
}

#[test]
fn start_up_needs_one_server() {
    assert!(!KangStarter::any_started(&Vec::new()));
    assert!(!KangStarter::any_started(&vec![false, false]));
    assert!(KangStarter::any_started(&vec![false, true, false]));
}

#[test]
fn size_text_in_upper_case() {
    assert!(ConfigValidator::check_size_text("10M".to_string()).is_ok());
    assert!(ConfigValidator::check_size_text("0K".to_string()).is_ok());
    assert!(ConfigValidator::check_size_text("+7G".to_string()).is_ok());
    assert!(matches!(
        ConfigValidator::check_size_text("10m".to_string()),
        Err(ValidatorError::InvalidBodySizeFormat(t)) if t == "10m"
    ));
    assert!(ConfigValidator::check_size_text("M".to_string()).is_err());
    assert!(ConfigValidator::check_size_text(String::new()).is_err());
    assert!(ConfigValidator::check_size_text("10".to_string()).is_err());
}

#[test]
fn method_names_in_upper_case() {
    for name in ["GET", "POST", "PUT", "DELETE", "HEAD", "OPTIONS", "PATCH", "TRACE", "CONNECT"] {
        assert!(ConfigValidator::names_http_method(name));
    }
    for name in ["get", "FETCH", "", "GET "] {
        assert!(!ConfigValidator::names_http_method(name));
    }
}
