use kang::http::cookies::Cookie;
use kang::http::headers::Headers;
use kang::http::methods::Method;
use kang::http::status::StatusCode;

#[test]
fn status_codes_and_texts() {
    let all = [
        (StatusCode::OK, 200, "OK"),
        (StatusCode::Created, 201, "Created"),
        (StatusCode::NoContent, 204, "No Content"),
        (StatusCode::MultipleChoices, 300, "Multiple Choices"),
        (StatusCode::MovedPermenantly, 301, "Moved Permanently"),
        (StatusCode::Found, 302, "Found"),
        (StatusCode::SeeOther, 303, "See Other"),
        (StatusCode::NotModified, 304, "Not Modified"),
        (StatusCode::UseProxy, 305, "Use Proxy"),
        (StatusCode::Unused, 306, "Unused"),
        (StatusCode::TemporaryRedirect, 307, "Temporary Redirect"),
        (StatusCode::PermenantRedirect, 308, "Permanent Redirect"),
        (StatusCode::BadRequest, 400, "Bad Request"),
        (StatusCode::Unauthorized, 401, "Unauthorized"),
        (StatusCode::Forbidden, 403, "Forbidden"),
        (StatusCode::NotFound, 404, "Not Found"),
        (StatusCode::MethodNotAllowed, 405, "Method Not Allowed"),
        (StatusCode::PayloadTooLarge, 413, "Payload Too Large"),
        (StatusCode::InternalServerError, 500, "Internal Server Error"),
        (StatusCode::NotImplemented, 501, "Not Implemented"),
    ];
    for (status, code, text) in all {
        assert_eq!(status.as_u16(), code);
        assert_eq!(status.to_text(), text);
        assert_eq!(StatusCode::from_u16(code), Some(status));
        assert_eq!(status.to_string(), format!("{}", code));
    }
}

#[test]
fn status_that_carries_any_code() {
    assert_eq!(StatusCode::with_number(404), StatusCode::NotFound);
    assert_eq!(StatusCode::with_number(301), StatusCode::MovedPermenantly);
    assert_eq!(StatusCode::with_number(399), StatusCode::Other(399));
    assert_eq!(StatusCode::with_number(0), StatusCode::Other(0));
    assert_eq!(StatusCode::Other(399).as_u16(), 399);
    assert_eq!(StatusCode::Other(399).to_text(), "");
    assert_eq!(StatusCode::Other(399).to_string(), "399");
    for code in [0u16, 200, 299, 308, 309, 500, 999, u16::MAX] {
        assert_eq!(StatusCode::with_number(code).as_u16(), code);
    }
}

#[test]
fn method_of_an_upper_case_form() {
    assert_eq!(Method::from_upper("GET", "get"), Method::GET);
    assert_eq!(Method::from_upper("OPTIONS", "Options"), Method::OPTIONS);
    assert_eq!(Method::from_upper("BREW", "brew"), Method::UNKNOWN("brew".to_string()));
    assert_eq!(Method::from_upper("get", "get"), Method::UNKNOWN("get".to_string()));
    assert_eq!(Method::from_upper("", ""), Method::UNKNOWN(String::new()));
}

#[test]
fn multipart_type_in_lower_case() {
    assert!(Headers::is_multipart_type("multipart/form-data"));
    assert!(Headers::is_multipart_type("multipart/form-data; boundary=x"));
    assert!(!Headers::is_multipart_type("Multipart/Form-Data"));
    assert!(!Headers::is_multipart_type("multipart/form"));
    assert!(!Headers::is_multipart_type(" multipart/form-data"));
    assert!(!Headers::is_multipart_type(""));
}

#[test]
fn unknown_status_codes() {
    for code in [0u16, 100, 199, 202, 299, 309, 399, 402, 404 + 1000, 502, u16::MAX] {
        assert_eq!(StatusCode::from_u16(code), None);
    }
}

#[test]
fn method_names() {
    assert_eq!(Method::GET.as_str(), "GET");
    assert_eq!(Method::POST.as_str(), "POST");
    assert_eq!(Method::DELETE.as_str(), "DELETE");
    assert_eq!(Method::HEAD.as_str(), "HEAD");
    assert_eq!(Method::PUT.as_str(), "PUT");
    assert_eq!(Method::PATCH.as_str(), "PATCH");
    assert_eq!(Method::OPTIONS.as_str(), "OPTIONS");
    assert_eq!(Method::UNKNOWN("Brew".to_string()).as_str(), "Brew");
}

#[test]
fn method_from_text() {
    assert_eq!(Method::from_str("GET"), Method::GET);
    assert_eq!(Method::from_str("get"), Method::GET);
    assert_eq!(Method::from_str("Post"), Method::POST);
    assert_eq!(Method::from_str("delete"), Method::DELETE);
    assert_eq!(Method::from_str("HEAD"), Method::HEAD);
    assert_eq!(Method::from_str("put"), Method::PUT);
    assert_eq!(Method::from_str("PATCH"), Method::PATCH);
    assert_eq!(Method::from_str("options"), Method::OPTIONS);
    assert_eq!(Method::from_str("TRACE"), Method::UNKNOWN("TRACE".to_string()));
    assert_eq!(Method::from_str("brew"), Method::UNKNOWN("brew".to_string()));
    assert_eq!(Method::from_str(""), Method::UNKNOWN(String::new()));
    assert_eq!(Method::from_str("GET ").duplicate(), Method::UNKNOWN("GET ".to_string()));
}

#[test]
fn cookie_text() {
    let mut c = Cookie::new("sid", "abc");
    assert_eq!(c.to_string(), "sid=abc");
    c.set_path("/app");
    assert_eq!(c.to_string(), "sid=abc; path=/app");
    c.set_domain("example.org");
    c.set_secure(true);
    c.set_http_only(true);
    assert_eq!(c.to_string(), "sid=abc; path=/app; domain=example.org; Secure; HttpOnly");
    c.set_secure(false);
    c.set_http_only(false);
    assert_eq!(c.to_string(), "sid=abc; path=/app; domain=example.org");
    assert_eq!(c.secure, Some(false));
}

#[test]
fn cookie_expiry_is_an_rfc_2822_date() {
    let mut c = Cookie::new("a", "b");
    c.set_expires(0);
    assert_eq!(c.expires.as_deref(), Some("Thu, 1 Jan 1970 00:00:00 +0000"));
    c.set_expires(1_431_648_000);
    assert_eq!(c.to_string(), "a=b; expires=Fri, 15 May 2015 00:00:00 +0000");
    c.set_expires(253_402_300_799);
    assert_eq!(c.expires.as_deref(), Some("Fri, 31 Dec 9999 23:59:59 +0000"));
    c.set_expires(-62_167_219_200);
    assert_eq!(c.expires.as_deref(), Some("Sat, 1 Jan 0000 00:00:00 +0000"));
}

#[test]
fn headers_ignore_the_case_of_names() {
    let mut h = Headers::new();
    assert!(h.get("Host").is_none());
    assert!(!h.contains("host"));
    h.add("Content-Type", "text/html");
    assert_eq!(h.get("content-type").map(|s| s.as_str()), Some("text/html"));
    assert_eq!(h.get("CONTENT-TYPE").map(|s| s.as_str()), Some("text/html"));
    assert!(h.contains("Content-type"));
    h.add("CONTENT-TYPE", "text/plain");
    assert_eq!(h.get("Content-Type").map(|s| s.as_str()), Some("text/plain"));
    assert_eq!(h.iter().len(), 1);
    assert_eq!(h.iter()[0], ("content-type".to_string(), "text/plain".to_string()));
    assert_eq!(h.get_exact("content-type").map(|s| s.as_str()), Some("text/plain"));
    assert!(h.get_exact("Content-Type").is_none());
}

#[test]
fn headers_from_lines() {
    let lines: Vec<Vec<char>> = ["Host: example.org", "", "X-Empty:", "no colon here", "  X-Pad  :   v  ", "A:b:c", "host: other"]
        .iter()
        .map(|l| l.chars().collect())
        .collect();
    let h = Headers::parse_lines(&lines);
    assert_eq!(h.get("host").map(|s| s.as_str()), Some("other"));
    assert_eq!(h.get("x-empty").map(|s| s.as_str()), Some(""));
    assert_eq!(h.get("x-pad").map(|s| s.as_str()), Some("v"));
    assert_eq!(h.get("a").map(|s| s.as_str()), Some("b:c"));
    assert_eq!(h.iter().len(), 4);
    assert_eq!(h.iter()[0].0, "host");
}

#[test]
fn multipart_content_type_and_boundary() {
    let mut h = Headers::new();
    assert!(!h.is_multipart_form_data());
    assert_eq!(h.get_boundary(), None);
    h.add("Content-Type", "Multipart/Form-Data; boundary=abc");
    assert!(h.is_multipart_form_data());
    assert_eq!(h.get_boundary(), Some("abc".to_string()));
    assert_eq!(h.get_multipart_boundary(), Some("abc".to_string()));
    h.add("Content-Type", "multipart/form-data; charset=utf-8;  boundary=\"x y\" ; boundary=z");
    assert_eq!(h.get_boundary(), Some("x y".to_string()));
    h.add("Content-Type", "multipart/form-data");
    assert_eq!(h.get_boundary(), None);
    h.add("Content-Type", "multipart/form-data; Boundary=abc");
    assert_eq!(h.get_boundary(), None);
    h.add("Content-Type", "text/plain; boundary=");
    assert!(!h.is_multipart_form_data());
    assert_eq!(h.get_boundary(), Some(String::new()));
}

#[test]
fn content_length_must_be_a_number() {
    let mut h = Headers::new();
    assert_eq!(h.get_content_length(), None);
    h.add("Content-Length", "42");
    assert_eq!(h.get_content_length(), Some(42));
    h.add("content-length", "4x");
    assert_eq!(h.get_content_length(), None);
    h.add("content-length", " 7");
    assert_eq!(h.get_content_length(), None);
    h.add("content-length", "18446744073709551616");
    assert_eq!(h.get_content_length(), None);
}

#[test]
fn cookies_of_a_request() {
    let mut h = Headers::new();
    assert!(h.get_cookie("session_id").is_none());
    h.add("Cookie", "a=1; session_id=xyz; b=2=3;novalue; session_id=second");
    let c = h.get_cookie("session_id").unwrap();
    assert_eq!(c.name, "session_id");
    assert_eq!(c.value, "xyz");
    assert_eq!(c.expires, None);
    assert_eq!(c.path, None);
    assert_eq!(c.domain, None);
    assert_eq!(c.secure, None);
    assert_eq!(c.http_only, None);
    assert_eq!(h.get_cookie("a").unwrap().value, "1");
    assert_eq!(h.get_cookie("b").unwrap().value, "2=3");
    assert!(h.get_cookie("novalue").is_none());
    assert!(h.get_cookie("A").is_none());
    assert!(h.get_cookie("missing").is_none());
}

#[test]
fn headers_from_string_slices() {
    let h = Headers::parse(&["Host: a", "", "Accept: */*", "HOST:b", "nothing"]);
    assert_eq!(h.get("host").map(|s| s.as_str()), Some("b"));
    assert_eq!(h.get("accept").map(|s| s.as_str()), Some("*/*"));
    assert_eq!(h.iter().len(), 2);
    assert_eq!(Headers::parse(&[]).iter().len(), 0);
}
