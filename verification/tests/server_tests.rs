use kang::config::config::{
    Config, ErrorPages, GlobalConfig, RouteConfig, ServerConfig, SessionConfig,
};
use kang::http::methods::Method;
use kang::http::request::{ParseError, Request};
use kang::http::response::Response;
use kang::http::sessions::Timestamp;
use kang::http::status::StatusCode;
use kang::server::listener::listener::{
    Connection, ListenerState, Phase, ReadError, ReadStep, WaitStep, MAX_EVENTS,
};
use kang::server::server::{Action, Server, Target};
use kang::string_map::StringMap;

fn complete(step: ReadStep) -> Request {
    match step {
        ReadStep::Complete(request) => request,
        other => panic!("not complete: {:?}", other),
    }
}

#[test]
fn request_in_two_bursts() {
    let mut c = Connection::new();
    assert!(matches!(c.on_data(b"GET /a HTTP/1.1\r\nHo"), ReadStep::More));
    assert_eq!(c.buffer(), b"GET /a HTTP/1.1\r\nHo");
    let request = complete(c.on_data(b"st: x\r\n\r\n"));
    assert_eq!(request.method(), &Method::GET);
    assert_eq!(request.path(), "/a");
    assert_eq!(request.headers().get("host").map(|s| s.as_str()), Some("x"));
}

#[test]
fn body_is_awaited_up_to_the_declared_length() {
    let mut c = Connection::new();
    assert!(matches!(c.on_data(b"POST /u HTTP/1.1\r\nContent-Length: 5\r\n\r\n"), ReadStep::More));
    assert!(matches!(c.on_data(b"he"), ReadStep::More));
    assert!(matches!(c.on_data(b"ll"), ReadStep::More));
    let request = complete(c.on_data(b"o!"));
    assert_eq!(request.body(), b"hello!");
    assert!(request.body().len() >= 5);
}

#[test]
fn declared_length_of_zero_and_missing_length() {
    let mut zero = Connection::new();
    let request = complete(zero.on_data(b"POST /u HTTP/1.1\r\ncontent-length:  0 \r\n\r\n"));
    assert!(request.body().is_empty());
    let mut none = Connection::new();
    let request = complete(none.on_data(b"POST /u HTTP/1.1\r\nHost: x\r\n\r\npart"));
    assert_eq!(request.body(), b"part");
    let mut malformed = Connection::new();
    let request = complete(malformed.on_data(b"POST /u HTTP/1.1\r\nContent-Length: many\r\n\r\n12"));
    assert_eq!(request.body(), b"12");
}

#[test]
fn declared_length_is_read_as_the_parser_reads_it() {
    let mut tight = Connection::new();
    assert!(matches!(tight.on_data(b"POST /u HTTP/1.1\r\nContent-Length:5\r\n\r\n"), ReadStep::More));
    assert!(matches!(tight.on_data(b"1234"), ReadStep::More));
    let request = complete(tight.on_data(b"5"));
    assert_eq!(request.body(), b"12345");
    assert_eq!(request.headers().get_content_length(), Some(5));
    let mut spaced = Connection::new();
    assert!(matches!(spaced.on_data(b"POST /u HTTP/1.1\r\n  CONTENT-length \t:\t 3  \r\n\r\n12"), ReadStep::More));
    assert_eq!(complete(spaced.on_data(b"3")).body(), b"123");
}

#[test]
fn the_last_length_header_counts() {
    let mut growing = Connection::new();
    assert!(matches!(
        growing.on_data(b"POST /u HTTP/1.1\r\nContent-Length: 1\r\nContent-Length: 3\r\n\r\n12"),
        ReadStep::More
    ));
    let request = complete(growing.on_data(b"3"));
    assert_eq!(request.body(), b"123");
    assert_eq!(request.headers().get_content_length(), Some(3));
    let mut shrinking = Connection::new();
    let request = complete(
        shrinking.on_data(b"POST /u HTTP/1.1\r\nContent-Length: x\r\nCONTENT-LENGTH: 3\r\nContent-Length: 1\r\n\r\n12"),
    );
    assert_eq!(request.body(), b"12");
    assert_eq!(request.headers().get_content_length(), Some(1));
}

#[test]
fn any_cut_gives_the_same_request() {
    let stream = b"POST /up?a=1 HTTP/1.1\r\nHost: example\r\nContent-Length: 11\r\nX-Y: z\r\n\r\nhello world".to_vec();
    let whole = complete(Connection::new().on_data(&stream));
    for cut in 1..stream.len() {
        let mut c = Connection::new();
        let first = c.on_data(&stream[..cut]);
        assert!(matches!(first, ReadStep::More), "cut at {}", cut);
        let request = complete(c.on_data(&stream[cut..]));
        assert_eq!(request.method(), whole.method());
        assert_eq!(request.path(), whole.path());
        assert_eq!(request.version(), whole.version());
        assert_eq!(request.headers().iter(), whole.headers().iter());
        assert_eq!(request.query_params().entries, whole.query_params().entries);
        assert_eq!(request.body(), whole.body());
        assert_eq!(c.buffer(), stream.as_slice());
    }
    let mut bytewise = Connection::new();
    for (i, b) in stream.iter().enumerate() {
        let step = bytewise.on_data(&[*b]);
        if i + 1 < stream.len() {
            assert!(matches!(step, ReadStep::More));
        } else {
            assert_eq!(complete(step).body(), b"hello world");
        }
    }
}

#[test]
fn upload_does_not_depend_on_the_bursts() {
    let mut stream = b"POST /upload HTTP/1.1\r\nContent-Type: multipart/form-data; boundary=abc\r\nContent-Length: 140\r\n\r\n".to_vec();
    let body = b"--abc\r\nContent-Disposition: form-data; name=\"t\"\r\n\r\nvalue\r\n--abc\r\nContent-Disposition: form-data; name=\"f\"; filename=\"a.bin\"\r\n\r\n\x00\x01\r\n--abc--\r\n";
    assert_eq!(body.len(), 140);
    stream.extend_from_slice(body);
    for cut in [1usize, 20, 97, 98, 99, 120, 200, stream.len() - 1] {
        let mut c = Connection::new();
        assert!(matches!(c.on_data(&stream[..cut]), ReadStep::More));
        let data = complete(c.on_data(&stream[cut..])).parse_multipart_form_data().unwrap();
        assert_eq!(data.fields.entries, vec![("t".to_string(), "value".to_string())]);
        assert_eq!(data.files.len(), 1);
        assert_eq!(data.files[0].content, vec![0, 1]);
    }
}

#[test]
fn failures_of_reading() {
    let mut closed = Connection::new();
    assert_eq!(closed.on_would_block(), WaitStep::Failed(ReadError::NoData));
    assert!(matches!(closed.on_data(b"GET"), ReadStep::More));
    assert_eq!(closed.on_would_block(), WaitStep::Wait);
    assert!(matches!(closed.on_data(b""), ReadStep::Failed(ReadError::Closed)));
    assert_eq!(closed.buffer(), b"GET");
    assert!(matches!(closed.on_data(b" / HTTP/1.1\r\n\r\n"), ReadStep::Failed(ReadError::NotReading)));
    assert_eq!(closed.buffer(), b"GET");
    let mut at_once = Connection::new();
    assert!(matches!(at_once.on_data(b""), ReadStep::Failed(ReadError::Closed)));
    assert_eq!(at_once.current_phase(), Phase::Closed);
    let mut bad = Connection::new();
    assert!(matches!(
        bad.on_data(b"GET /\r\n\r\n"),
        ReadStep::Failed(ReadError::Invalid(ParseError::InvalidRequestLine))
    ));
    let mut binary = Connection::new();
    assert!(matches!(
        binary.on_data(b"\xff\xfe\r\n\r\n"),
        ReadStep::Failed(ReadError::Invalid(ParseError::InvalidUtf8))
    ));
}

#[test]
fn one_request_and_one_response_for_each_connection() {
    let mut c = Connection::new();
    assert_eq!(c.current_phase(), Phase::Accepted);
    assert!(!c.written());
    assert!(matches!(c.on_data(b"GET / HT"), ReadStep::More));
    assert_eq!(c.current_phase(), Phase::Reading);
    assert!(!c.written());
    assert!(matches!(c.on_data(b"TP/1.1\r\n\r\n"), ReadStep::Complete(_)));
    assert_eq!(c.current_phase(), Phase::Dispatched);
    assert!(matches!(c.on_data(b"GET / HTTP/1.1\r\n\r\n"), ReadStep::Failed(ReadError::NotReading)));
    assert_eq!(c.buffer(), b"GET / HTTP/1.1\r\n\r\n");
    assert!(c.written());
    assert_eq!(c.current_phase(), Phase::Written);
    assert!(!c.written());
    assert!(matches!(c.on_data(b"x"), ReadStep::Failed(ReadError::NotReading)));
    c.close();
    assert_eq!(c.current_phase(), Phase::Closed);
    assert!(!c.written());
    let mut failed = Connection::new();
    assert!(matches!(failed.on_data(b"bad\r\n\r\n"), ReadStep::Failed(ReadError::Invalid(_))));
    assert_eq!(failed.current_phase(), Phase::Closed);
    assert!(!failed.written());
}

#[test]
fn listener_owns_its_connections() {
    assert_eq!(MAX_EVENTS, 1024);
    let mut l = ListenerState::new(3);
    assert_eq!(l.get_id(), 3);
    assert!(!l.owns(7));
    assert!(l.handle_connection(7, b"x").is_none());
    assert!(l.would_block(7).is_none());
    l.accept_connection(7);
    l.accept_connection(8);
    assert!(l.owns(7) && l.owns(8));
    assert_eq!(l.would_block(7), Some(WaitStep::Failed(ReadError::NoData)));
    assert!(matches!(l.handle_connection(7, b"GET / HT"), Some(ReadStep::More)));
    assert!(matches!(l.handle_connection(8, b"DELETE /x HTTP/1.1\r\n\r\n"), Some(ReadStep::Complete(_))));
    assert_eq!(l.would_block(7), Some(WaitStep::Wait));
    let request = match l.handle_connection(7, b"TP/1.1\r\n\r\n") {
        Some(ReadStep::Complete(r)) => r,
        other => panic!("not complete: {:?}", other),
    };
    assert_eq!(request.path(), "/");
    assert!(l.written(7));
    assert!(!l.written(7));
    assert!(!l.written(99));
    assert!(matches!(l.handle_connection(7, b"more"), Some(ReadStep::Failed(ReadError::NotReading))));
    l.remove_connection(7);
    assert!(!l.owns(7));
    assert!(l.owns(8));
    l.remove_connection(7);
    l.accept_connection(8);
    assert_eq!(l.would_block(8), Some(WaitStep::Failed(ReadError::NoData)));
}

fn server_config(sessions: bool) -> ServerConfig {
    ServerConfig {
        server_name: vec!["a".to_string(), "b".to_string()],
        error_pages: ErrorPages { pages: StringMap::new() },
        host: "127.0.0.1".to_string(),
        ports: vec![8080, 8081],
        is_default: true,
        routes: vec![RouteConfig {
            path: "/".to_string(),
            root: Some("./www".to_string()),
            index: None,
            methods: vec!["GET".to_string()],
            directory_listing: false,
            redirect: None,
            cgi: None,
            client_max_body_size: None,
            sessions_required: false,
        }],
        client_max_body_size: Some("1M".to_string()),
        sessions: SessionConfig {
            enabled: sessions,
            timeout_minutes: 30,
            cookie_path: "/ignored".to_string(),
            cookie_secure: true,
            cookie_http_only: false,
        },
    }
}

fn global(sessions: bool) -> Config {
    Config {
        global: GlobalConfig {
            client_max_body_size: None,
            response_format: None,
            cgi: StringMap::new(),
            sessions: SessionConfig {
                enabled: sessions,
                timeout_minutes: 5,
                cookie_path: "/".to_string(),
                cookie_secure: false,
                cookie_http_only: true,
            },
        },
        servers: Vec::new(),
    }
}

#[test]
fn server_from_configuration() {
    let s = Server::new(server_config(true), global(true));
    assert!(s.listeners.is_empty());
    assert_eq!(s.server_name, vec!["a", "b"]);
    assert_eq!(s.host, "127.0.0.1");
    assert_eq!(s.ports, vec![8080, 8081]);
    assert!(s.is_default);
    assert_eq!(s.client_max_body_size.as_deref(), Some("1M"));
    assert_eq!(s.mux.routes.len(), 1);
    let store = s.session_store.as_ref().unwrap();
    assert_eq!(store.session_timeout, 1800);
    assert_eq!(store.cookie_path, "/");
    assert!(!store.cookie_secure);
    assert!(store.cookie_http_only);
    let from_global = Server::new(server_config(false), global(true));
    assert_eq!(from_global.session_store.as_ref().unwrap().session_timeout, 300);
    assert!(Server::new(server_config(false), global(false)).session_store.is_none());
}

#[test]
fn events_are_sorted_out() {
    let mut s = Server::new(server_config(false), global(false));
    s.add_listener(3);
    s.add_listener(4);
    assert_eq!(s.listeners.len(), 2);
    s.listeners[0].accept_connection(10);
    s.listeners[1].accept_connection(11);
    s.listeners[1].accept_connection(3);
    assert_eq!(s.locate(3), Target::Listener(0));
    assert_eq!(s.locate(4), Target::Listener(1));
    assert_eq!(s.locate(10), Target::Connection(0));
    assert_eq!(s.locate(11), Target::Connection(1));
    assert_eq!(s.locate(12), Target::Unknown);
    assert_eq!(s.on_event(3, true), Action::Accept(0));
    assert_eq!(s.on_event(4, false), Action::Skip);
    assert_eq!(s.on_event(11, true), Action::Read(1));
    assert_eq!(s.on_event(10, false), Action::Forget);
    assert_eq!(s.on_event(12, true), Action::Stray);
    assert_eq!(s.on_event(12, false), Action::Forget);
    s.close(11);
    assert_eq!(s.locate(11), Target::Unknown);
    assert_eq!(s.locate(10), Target::Connection(0));
    s.close(10);
    s.close(10);
    assert_eq!(s.on_event(10, true), Action::Stray);
}

#[test]
fn sessions_around_a_request() {
    let mut s = Server::new(server_config(true), global(false));
    let request = Request::parse(b"GET / HTTP/1.1\r\n\r\n").unwrap();
    let now = Timestamp { secs: 1000, nanos: 0 };
    let id = s.begin_request(&request, false, now, "one".to_string());
    assert_eq!(id.as_deref(), Some("one"));
    let mut response = Response::new(StatusCode::OK);
    assert!(s.finish_request(&mut response, &id, now));
    assert_eq!(
        response.headers().get("set-cookie").map(|s| s.as_str()),
        Some("session_id=one; expires=Thu, 1 Jan 1970 00:46:40 +0000; path=/; HttpOnly")
    );
    let again = Request::parse(b"GET / HTTP/1.1\r\nCookie: session_id=one\r\n\r\n").unwrap();
    let later = Timestamp { secs: 2000, nanos: 0 };
    assert_eq!(s.begin_request(&again, true, later, "two".to_string()).as_deref(), Some("one"));
    let much_later = Timestamp { secs: 2000 + 1801, nanos: 0 };
    assert_eq!(s.begin_request(&again, false, much_later, "three".to_string()).as_deref(), Some("one"));
    let after_sweep = Timestamp { secs: 10_000, nanos: 0 };
    assert_eq!(s.begin_request(&again, true, after_sweep, "four".to_string()).as_deref(), Some("four"));
    assert_eq!(s.session_store.as_ref().unwrap().len(), 1);
    let mut untouched = Response::new(StatusCode::OK);
    assert!(!s.finish_request(&mut untouched, &None, now));
    assert!(!s.finish_request(&mut untouched, &id, Timestamp { secs: i64::MAX, nanos: 0 }));
    assert!(untouched.headers().get("set-cookie").is_none());
}

#[test]
fn no_sessions_no_cookie() {
    let mut s = Server::new(server_config(false), global(false));
    let request = Request::parse(b"GET / HTTP/1.1\r\nCookie: session_id=one\r\n\r\n").unwrap();
    let now = Timestamp { secs: 0, nanos: 0 };
    assert_eq!(s.begin_request(&request, true, now, "x".to_string()), None);
    let mut response = Response::new(StatusCode::OK);
    assert!(!s.finish_request(&mut response, &Some("x".to_string()), now));
    assert_eq!(response.headers().iter().len(), 2);
}
