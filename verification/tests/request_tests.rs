use kang::http::methods::Method;
use kang::http::request::{find_headers_end, ParseError, Request};
use kang::http::upload::UploadError;

#[test]
fn parse_simple_get() {
    let raw = b"GET /static/index.html HTTP/1.1\r\nHost: x\r\n\r\n";
    let request = Request::parse(raw).unwrap();
    assert_eq!(request.method(), &Method::GET);
    assert_eq!(request.path(), "/static/index.html");
    assert_eq!(request.version(), "HTTP/1.1");
    assert_eq!(request.headers().get("Host").map(|s| s.as_str()), Some("x"));
    assert_eq!(request.headers().get("host").map(|s| s.as_str()), Some("x"));
    assert_eq!(request.headers().iter().len(), 1);
    assert_eq!(request.query_params().len(), 0);
    assert!(request.body().is_empty());
    assert!(request.is_keep_alive());
    assert!(!request.is_chunked());
}

#[test]
fn parse_keeps_method_path_version_and_headers() {
    let raw = b"PATCH /a/b.c HTTP/1.0\r\nAccept: */*\r\nX-Two:  spaced value \r\nAccept: text/html\r\n\r\nbody";
    let request = Request::parse(raw).unwrap();
    assert_eq!(request.method(), &Method::PATCH);
    assert_eq!(request.path(), "/a/b.c");
    assert_eq!(request.version(), "HTTP/1.0");
    assert_eq!(request.headers().get("accept").map(|s| s.as_str()), Some("text/html"));
    assert_eq!(request.headers().get("x-two").map(|s| s.as_str()), Some("spaced value"));
    assert_eq!(request.headers().iter().len(), 2);
    assert_eq!(request.body(), b"body");
    assert!(!request.is_keep_alive());
}

#[test]
fn parse_without_blank_line_is_incomplete() {
    assert_eq!(Request::parse(b"GET / HTTP/1.1\r\nHost: x\r\n").err(), Some(ParseError::Incomplete));
    assert_eq!(Request::parse(b"").err(), Some(ParseError::Incomplete));
    assert_eq!(Request::parse(b"\r\n").err(), Some(ParseError::Incomplete));
    assert_eq!(Request::parse(b"GET / HTTP/1.1\n\n").err(), Some(ParseError::Incomplete));
}

#[test]
fn headers_end_is_first_blank_line() {
    assert_eq!(find_headers_end(b"ab\r\n\r\ncd\r\n\r\n"), Some(2));
    assert_eq!(find_headers_end(b"\r\n\r\n"), Some(0));
    assert_eq!(find_headers_end(b"abc"), None);
    assert_eq!(find_headers_end(b""), None);
    assert_eq!(find_headers_end(b"\r\n\r"), None);
    assert_eq!(find_headers_end(b"\r\r\n\r\n"), Some(1));
}

#[test]
fn request_line_needs_three_words() {
    assert_eq!(Request::parse(b"GET /\r\n\r\n").err(), Some(ParseError::InvalidRequestLine));
    assert_eq!(Request::parse(b"GET / HTTP/1.1 extra\r\n\r\n").err(), Some(ParseError::InvalidRequestLine));
    assert_eq!(Request::parse(b"\r\n\r\n").err(), Some(ParseError::InvalidRequestLine));
    assert_eq!(Request::parse(b"\r\nGET / HTTP/1.1\r\n\r\n").err(), Some(ParseError::InvalidRequestLine));
    let spaced = Request::parse(b"  GET \t /x   HTTP/1.1 \r\n\r\n").unwrap();
    assert_eq!(spaced.path(), "/x");
    assert_eq!(spaced.version(), "HTTP/1.1");
}

#[test]
fn head_must_be_utf8() {
    assert_eq!(Request::parse(b"GET /\xff HTTP/1.1\r\n\r\n").err(), Some(ParseError::InvalidUtf8));
    let ok = Request::parse(b"GET / HTTP/1.1\r\n\r\n\xff\xfe").unwrap();
    assert_eq!(ok.body(), b"\xff\xfe");
}

#[test]
fn target_that_does_not_decode_is_rejected() {
    assert_eq!(Request::parse(b"GET /%FF HTTP/1.1\r\n\r\n").err(), Some(ParseError::InvalidTarget));
    let kept = Request::parse(b"GET /%zz%4 HTTP/1.1\r\n\r\n").unwrap();
    assert_eq!(kept.path(), "/%zz%4");
}

#[test]
fn target_is_decoded_and_split() {
    let r = Request::parse(b"GET /a%20b/c%C3%A9?x=1&y=%41&x=2&flag&=e&z= HTTP/1.1\r\n\r\n").unwrap();
    assert_eq!(r.path(), "/a b/c\u{e9}");
    assert_eq!(r.query_param("x").map(|s| s.as_str()), Some("2"));
    assert_eq!(r.query_param("y").map(|s| s.as_str()), Some("A"));
    assert_eq!(r.query_param("").map(|s| s.as_str()), Some("e"));
    assert_eq!(r.query_param("z").map(|s| s.as_str()), Some(""));
    assert!(r.query_param("flag").is_none());
    assert_eq!(r.query_params().len(), 4);
    assert_eq!(r.query_params().entries[0], ("x".to_string(), "2".to_string()));
}

#[test]
fn query_is_decoded_twice() {
    let r = Request::parse(b"GET /p?k=%2541&q=a%3Fb HTTP/1.1\r\n\r\n").unwrap();
    assert_eq!(r.path(), "/p");
    assert_eq!(r.query_param("k").map(|s| s.as_str()), Some("A"));
    assert_eq!(r.query_param("q").map(|s| s.as_str()), Some("a?b"));
    let encoded_mark = Request::parse(b"GET /p%3Fk=v HTTP/1.1\r\n\r\n").unwrap();
    assert_eq!(encoded_mark.path(), "/p");
    assert_eq!(encoded_mark.query_param("k").map(|s| s.as_str()), Some("v"));
}

#[test]
fn new_request_splits_the_target() {
    let r = Request::new(Method::POST, "/up?a=b%20c&bad=%FF", "HTTP/1.1");
    assert_eq!(r.method(), &Method::POST);
    assert_eq!(r.path(), "/up");
    assert_eq!(r.version(), "HTTP/1.1");
    assert_eq!(r.query_param("a").map(|s| s.as_str()), Some("b c"));
    assert_eq!(r.query_param("bad").map(|s| s.as_str()), Some("%FF"));
    assert!(r.body().is_empty());
    assert_eq!(r.headers().iter().len(), 0);
    assert!(!r.is_chunked());
    assert!(!r.is_keep_alive());
    let plain = Request::new(Method::GET, "/only/path", "HTTP/1.0");
    assert_eq!(plain.path(), "/only/path");
    assert_eq!(plain.query_params().len(), 0);
}

#[test]
fn keep_alive_and_chunked_flags() {
    let close = Request::parse(b"GET / HTTP/1.1\r\nConnection: close\r\n\r\n").unwrap();
    assert!(!close.is_keep_alive());
    let keep = Request::parse(b"GET / HTTP/1.0\r\nConnection: Keep-Alive\r\n\r\n").unwrap();
    assert!(keep.is_keep_alive());
    let old = Request::parse(b"GET / HTTP/1.0\r\nHost: x\r\n\r\n").unwrap();
    assert!(!old.is_keep_alive());
    let bare = Request::parse(b"GET / HTTP/1.1\r\n\r\n").unwrap();
    assert!(bare.is_keep_alive());
    let other = Request::parse(b"GET / HTTP/1.1\r\nConnection: upgrade\r\n\r\n").unwrap();
    assert!(!other.is_keep_alive());
    let chunked = Request::parse(b"POST / HTTP/1.1\r\nTransfer-Encoding: gzip, Chunked\r\n\r\n").unwrap();
    assert!(chunked.is_chunked());
    let identity = Request::parse(b"POST / HTTP/1.1\r\nTransfer-Encoding: identity\r\n\r\n").unwrap();
    assert!(!identity.is_chunked());
}

#[test]
fn body_is_kept_as_bytes() {
    let mut raw = b"POST /u HTTP/1.1\r\nContent-Length: 6\r\n\r\n".to_vec();
    raw.extend_from_slice(&[0, 1, 2, 255, 13, 10]);
    let r = Request::parse(&raw).unwrap();
    assert_eq!(r.body(), &[0, 1, 2, 255, 13, 10]);
    assert_eq!(r.headers().get_content_length(), Some(6));
}

#[test]
fn setters_replace_and_append() {
    let mut r = Request::new(Method::GET, "/", "HTTP/1.1");
    r.set_body(vec![1, 2]);
    r.append_body(&[3]);
    assert_eq!(r.body(), &[1, 2, 3]);
    let mut h = kang::http::headers::Headers::new();
    h.add("A", "b");
    r.set_headers(h);
    assert_eq!(r.headers().get("a").map(|s| s.as_str()), Some("b"));
    r.set_body(Vec::new());
    assert!(r.body().is_empty());
    assert_eq!(r.path(), "/");
}

#[test]
fn upload_needs_post_multipart_and_body() {
    let body = "--abc\r\nContent-Disposition: form-data; name=\"t\"\r\n\r\nv\r\n--abc--\r\n";
    let head = "Content-Type: multipart/form-data; boundary=abc\r\n\r\n";
    let post = Request::parse(format!("POST /u HTTP/1.1\r\n{}{}", head, body).as_bytes()).unwrap();
    assert!(post.has_file_upload());
    let data = post.parse_multipart_form_data().unwrap();
    assert_eq!(data.fields.get("t").map(|s| s.as_str()), Some("v"));
    assert!(data.files.is_empty());
    let put = Request::parse(format!("PUT /u HTTP/1.1\r\n{}{}", head, body).as_bytes()).unwrap();
    assert!(!put.has_file_upload());
    assert_eq!(put.parse_multipart_form_data().err(), Some(UploadError::NotAnUpload));
    let empty = Request::parse(format!("POST /u HTTP/1.1\r\n{}", head).as_bytes()).unwrap();
    assert!(!empty.has_file_upload());
    let plain = Request::parse(b"POST /u HTTP/1.1\r\nContent-Type: text/plain\r\n\r\nx").unwrap();
    assert!(!plain.has_file_upload());
    let no_boundary = Request::parse(b"POST /u HTTP/1.1\r\nContent-Type: multipart/form-data\r\n\r\nx").unwrap();
    assert!(no_boundary.has_file_upload());
    assert_eq!(no_boundary.parse_multipart_form_data().err(), Some(UploadError::MissingBoundary));
    let wrong = Request::parse(b"POST /u HTTP/1.1\r\nContent-Type: multipart/form-data; boundary=zzz\r\n\r\nx").unwrap();
    assert_eq!(wrong.parse_multipart_form_data().err(), Some(UploadError::NoParts));
}

#[test]
fn flags_of_lower_case_fields() {
    assert!(Request::names_chunked("gzip, chunked"));
    assert!(Request::names_chunked("chunked"));
    assert!(!Request::names_chunked("Chunked"));
    assert!(!Request::names_chunked("identity"));
    assert!(!Request::names_chunked(""));
    assert!(Request::names_keep_alive("keep-alive"));
    assert!(Request::names_keep_alive("upgrade, keep-alive"));
    assert!(!Request::names_keep_alive("Keep-Alive"));
    assert!(!Request::names_keep_alive("close"));
    assert!(Request::is_version_1_1("HTTP/1.1"));
    assert!(!Request::is_version_1_1("HTTP/1.0"));
    assert!(!Request::is_version_1_1("HTTP/2"));
}
