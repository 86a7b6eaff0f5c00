use kang::http::cookies::Cookie;
use kang::http::response::Response;
use kang::http::status::StatusCode;

fn text(bytes: &[u8]) -> String {
    String::from_utf8(bytes.to_vec()).unwrap()
}

#[test]
fn new_response_has_default_headers() {
    let r = Response::new(StatusCode::NotFound);
    assert_eq!(r.status_code(), &StatusCode::NotFound);
    assert_eq!(r.status_text(), "Not Found");
    assert_eq!(r.headers().get("Server").map(|s| s.as_str()), Some("Kang"));
    assert_eq!(r.headers().get("Connection").map(|s| s.as_str()), Some("close"));
    assert_eq!(r.headers().iter().len(), 2);
    assert!(r.body().is_empty());
    assert_eq!(text(&r.to_bytes()), "HTTP/1.1 404 Not Found\r\nserver: Kang\r\nconnection: close\r\n\r\n");
}

#[test]
fn body_sets_content_length() {
    let mut r = Response::new(StatusCode::OK);
    r.set_body(b"hi".to_vec());
    assert_eq!(r.body(), b"hi");
    assert_eq!(r.headers().get("Content-Length").map(|s| s.as_str()), Some("2"));
    assert_eq!(
        text(&r.to_bytes()),
        "HTTP/1.1 200 OK\r\nserver: Kang\r\nconnection: close\r\ncontent-length: 2\r\n\r\nhi"
    );
    r.set_body_string("h\u{e9}llo");
    assert_eq!(r.headers().get("content-length").map(|s| s.as_str()), Some("6"));
    assert_eq!(r.body(), "h\u{e9}llo".as_bytes());
    r.set_body(Vec::new());
    assert_eq!(r.headers().get("content-length").map(|s| s.as_str()), Some("0"));
    assert_eq!(r.headers().iter().len(), 3);
}

#[test]
fn content_length_is_the_body_length() {
    for n in [0usize, 1, 9, 10, 255, 1000, 65536] {
        let mut r = Response::new(StatusCode::OK);
        r.set_header("Content-Type", "application/octet-stream");
        r.set_body(vec![7u8; n]);
        assert_eq!(r.headers().get("content-length").map(|s| s.as_str()), Some(format!("{}", n).as_str()));
        assert_eq!(r.headers().get_content_length(), Some(n as u64));
        assert_eq!(r.body().len(), n);
    }
}

#[test]
fn headers_are_replaced_in_place() {
    let mut r = Response::new(StatusCode::OK);
    r.set_header("Server", "Other");
    r.set_header("X-New", "1");
    r.set_field("connection", "keep-alive");
    assert_eq!(
        text(&r.to_bytes()),
        "HTTP/1.1 200 OK\r\nserver: Other\r\nconnection: keep-alive\r\nx-new: 1\r\n\r\n"
    );
}

#[test]
fn cookie_becomes_a_header() {
    let mut r = Response::new(StatusCode::OK);
    let mut c = Cookie::new("session_id", "abc");
    c.set_path("/");
    c.set_http_only(true);
    r.set_cookie(c);
    assert_eq!(
        r.headers().get("Set-Cookie").map(|s| s.as_str()),
        Some("session_id=abc; path=/; HttpOnly")
    );
}

#[test]
fn wire_form_round_trip() {
    for status in [StatusCode::OK, StatusCode::MovedPermenantly, StatusCode::NotFound, StatusCode::InternalServerError] {
        let mut r = Response::new(status);
        let body: Vec<u8> = vec![0, 13, 10, 13, 10, 255, b'x'];
        r.set_body(body.clone());
        let bytes = r.to_bytes();
        let line_end = bytes.windows(2).position(|w| w == b"\r\n").unwrap();
        let line = text(&bytes[..line_end]);
        let mut words = line.splitn(3, ' ');
        assert_eq!(words.next(), Some("HTTP/1.1"));
        assert_eq!(words.next().unwrap().parse::<u16>().unwrap(), status.as_u16());
        assert_eq!(words.next().unwrap(), status.to_text());
        let blank = bytes.windows(4).position(|w| w == b"\r\n\r\n").unwrap();
        assert_eq!(&bytes[blank + 4..], body.as_slice());
    }
}

#[test]
fn same_response_same_bytes() {
    let make = || {
        let mut r = Response::new(StatusCode::OK);
        r.set_header("Content-Type", "text/html");
        r.set_body(b"<p>file</p>".to_vec());
        r.to_bytes()
    };
    assert_eq!(make(), make());
}

#[test]
fn script_output_with_headers() {
    let r = Response::from_script_output("Content-Type: text/plain\r\nX-A: b: c\r\nbroken line\r\n\r\nhello\r\n\r\nmore");
    assert_eq!(r.status_code(), &StatusCode::OK);
    assert_eq!(r.headers().get("content-type").map(|s| s.as_str()), Some("text/plain"));
    assert_eq!(r.headers().get("x-a").map(|s| s.as_str()), Some("b: c"));
    assert_eq!(r.headers().get("server").map(|s| s.as_str()), Some("Kang"));
    assert_eq!(r.body(), b"hello\r\n\r\nmore");
    assert_eq!(r.headers().get("content-length").map(|s| s.as_str()), Some("13"));
    assert_eq!(r.headers().iter().len(), 5);
}

#[test]
fn script_output_without_headers_is_html() {
    let r = Response::from_script_output("<h1>hi</h1>\n");
    assert_eq!(r.headers().get("content-type").map(|s| s.as_str()), Some("text/html"));
    assert_eq!(r.body(), b"<h1>hi</h1>\n");
    assert_eq!(r.headers().get("content-length").map(|s| s.as_str()), Some("12"));
    let empty = Response::from_script_output("");
    assert!(empty.body().is_empty());
    assert_eq!(empty.headers().get("content-length").map(|s| s.as_str()), Some("0"));
    let only_head = Response::from_script_output("Location: /x\r\n\r\n");
    assert_eq!(only_head.headers().get("location").map(|s| s.as_str()), Some("/x"));
    assert!(only_head.body().is_empty());
}
