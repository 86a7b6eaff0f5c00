use kang::http::request::Request;
use kang::http::response::Response;
use kang::http::sessions::{SessionStore, Timestamp};
use kang::http::status::StatusCode;

fn at(secs: i64) -> Timestamp {
    Timestamp { secs, nanos: 0 }
}

fn request_with_cookie(cookie: Option<&str>) -> Request {
    let raw = match cookie {
        Some(c) => format!("GET / HTTP/1.1\r\nCookie: {}\r\n\r\n", c),
        None => "GET / HTTP/1.1\r\n\r\n".to_string(),
    };
    Request::parse(raw.as_bytes()).unwrap()
}

#[test]
fn new_store() {
    let store = SessionStore::new(60);
    assert_eq!(store.len(), 0);
    assert_eq!(store.session_timeout, 3600);
    assert_eq!(store.cookie_path, "/");
    assert!(!store.cookie_secure);
    assert!(store.cookie_http_only);
    assert!(store.session("x").is_none());
}

#[test]
fn first_request_creates_a_session() {
    let mut store = SessionStore::new(60);
    let id = store.session_from_request_at(&request_with_cookie(None), at(100), "fresh-1".to_string());
    assert_eq!(id, "fresh-1");
    assert_eq!(store.len(), 1);
    let session = store.session("fresh-1").unwrap();
    assert_eq!(session.id, "fresh-1");
    assert_eq!(session.created_at, at(100));
    assert_eq!(session.last_accessed, at(100));
    assert_eq!(session.data.len(), 0);
}

#[test]
fn same_cookie_same_session() {
    let mut store = SessionStore::new(60);
    let first = store.session_from_request_at(&request_with_cookie(None), at(100), "X".to_string());
    let again = request_with_cookie(Some("theme=dark; session_id=X"));
    let second = store.session_from_request_at(&again, at(160), "unused-1".to_string());
    let third = store.session_from_request_at(&again, at(220), "unused-2".to_string());
    assert_eq!(first, "X");
    assert_eq!(second, "X");
    assert_eq!(third, "X");
    assert_eq!(store.len(), 1);
    let session = store.session("X").unwrap();
    assert_eq!(session.created_at, at(100));
    assert_eq!(session.last_accessed, at(220));
    assert!(store.session("unused-1").is_none());
}

#[test]
fn unknown_cookie_gets_a_new_session() {
    let mut store = SessionStore::new(60);
    let id = store.session_from_request_at(&request_with_cookie(Some("session_id=stale")), at(5), "new".to_string());
    assert_eq!(id, "new");
    assert!(store.session("stale").is_none());
    assert_eq!(store.len(), 1);
    let other = store.session_from_request_at(&request_with_cookie(Some("sid=new")), at(6), "third".to_string());
    assert_eq!(other, "third");
    assert_eq!(store.len(), 2);
}

#[test]
fn touching_and_creating() {
    let mut store = SessionStore::new(1);
    assert!(!store.get_session_at("a", at(1)));
    store.create_session_at("a".to_string(), at(1));
    store.create_session_at("b".to_string(), at(2));
    assert!(store.get_session_at("a", Timestamp { secs: 9, nanos: 5 }));
    assert_eq!(store.session("a").unwrap().last_accessed, Timestamp { secs: 9, nanos: 5 });
    assert_eq!(store.session("a").unwrap().created_at, at(1));
    assert_eq!(store.session("b").unwrap().last_accessed, at(2));
    store.create_session_at("a".to_string(), at(20));
    assert_eq!(store.len(), 2);
    assert_eq!(store.session("a").unwrap().created_at, at(20));
}

#[test]
fn sweep_removes_what_was_unused_for_longer_than_the_timeout() {
    let mut store = SessionStore::new(1);
    store.create_session_at("old".to_string(), at(0));
    store.create_session_at("edge".to_string(), at(40));
    store.create_session_at("older".to_string(), Timestamp { secs: 39, nanos: 999_999_999 });
    store.create_session_at("new".to_string(), at(90));
    store.create_session_at("late".to_string(), Timestamp { secs: 40, nanos: 1 });
    store.cleanup_expired_at(at(100));
    assert_eq!(store.len(), 3);
    assert!(store.session("old").is_none());
    assert!(store.session("older").is_none());
    assert!(store.session("edge").is_some());
    assert!(store.session("new").is_some());
    assert!(store.session("late").is_some());
    store.cleanup_expired_at(Timestamp { secs: 100, nanos: 1 });
    assert!(store.session("edge").is_none());
    assert!(store.session("late").is_some());
    store.cleanup_expired_at(at(i64::MAX));
    assert_eq!(store.len(), 0);
    store.cleanup_expired_at(at(0));
    assert_eq!(store.len(), 0);
}

#[test]
fn sweep_with_extreme_times() {
    let mut store = SessionStore::new(153_722_867_280_912);
    store.create_session_at("a".to_string(), at(i64::MAX));
    store.create_session_at("b".to_string(), at(i64::MIN));
    store.cleanup_expired_at(at(i64::MAX));
    assert!(store.session("a").is_some());
    assert!(store.session("b").is_none());
    let mut negative = SessionStore::new(-1);
    negative.create_session_at("a".to_string(), at(100));
    negative.cleanup_expired_at(at(50));
    assert_eq!(negative.len(), 0);
}

#[test]
fn comparing_times() {
    let t = Timestamp { secs: 10, nanos: 500 };
    assert!(t.is_earlier_than(Timestamp { secs: 10, nanos: 501 }, 0));
    assert!(!t.is_earlier_than(Timestamp { secs: 10, nanos: 500 }, 0));
    assert!(t.is_earlier_than(Timestamp { secs: 12, nanos: 0 }, 1));
    assert!(!t.is_earlier_than(Timestamp { secs: 12, nanos: 0 }, 2));
    assert!(!t.is_earlier_than(Timestamp { secs: 12, nanos: 0 }, 3));
    assert!(t.is_earlier_than(Timestamp { secs: 12, nanos: 501 }, 2));
}

#[test]
fn session_cookie() {
    let store = SessionStore::new(60);
    assert!(store.can_expire_at(at(0)));
    let cookie = store.create_session_cookie_at("abc", at(0));
    assert_eq!(cookie.name, "session_id");
    assert_eq!(cookie.value, "abc");
    assert_eq!(cookie.to_string(), "session_id=abc; expires=Thu, 1 Jan 1970 01:00:00 +0000; path=/; HttpOnly");
    let mut secure = SessionStore::new(0);
    secure.cookie_secure = true;
    secure.cookie_http_only = false;
    secure.cookie_path = "/app".to_string();
    let cookie = secure.create_session_cookie_at("z", Timestamp { secs: 1_431_648_000, nanos: 999 });
    assert_eq!(cookie.to_string(), "session_id=z; expires=Fri, 15 May 2015 00:00:00 +0000; path=/app; Secure");
}

#[test]
fn cookie_expiry_must_be_a_writable_date() {
    let store = SessionStore::new(1);
    assert!(store.can_expire_at(at(253_402_300_799 - 60)));
    assert!(!store.can_expire_at(at(253_402_300_799 - 59)));
    assert!(store.can_expire_at(at(-62_167_219_200 - 60)));
    assert!(!store.can_expire_at(at(-62_167_219_200 - 61)));
    assert!(!store.can_expire_at(at(i64::MAX)));
    assert!(!store.can_expire_at(at(i64::MIN)));
    let last = store.create_session_cookie_at("a", at(253_402_300_799 - 60));
    assert_eq!(last.expires.as_deref(), Some("Fri, 31 Dec 9999 23:59:59 +0000"));
}

#[test]
fn cookie_on_a_response() {
    let store = SessionStore::new(60);
    let mut response = Response::new(StatusCode::OK);
    store.add_session_cookie_at(&mut response, "abc", at(3600));
    assert_eq!(
        response.headers().get("Set-Cookie").map(|s| s.as_str()),
        Some("session_id=abc; expires=Thu, 1 Jan 1970 02:00:00 +0000; path=/; HttpOnly")
    );
    let mut now = Response::new(StatusCode::OK);
    assert!(store.add_session_cookie(&mut now, "abc"));
    let text = now.headers().get("set-cookie").unwrap();
    assert!(text.starts_with("session_id=abc; expires="));
    assert!(text.ends_with(" +0000; path=/; HttpOnly"));
    assert!(store.create_session_cookie("q").unwrap().expires.is_some());
}

#[test]
fn identifiers_are_random_uuids() {
    let a = SessionStore::generate_id();
    let b = SessionStore::generate_id();
    assert_ne!(a, b);
    assert_eq!(a.len(), 36);
    let parts: Vec<&str> = a.split('-').collect();
    assert_eq!(parts.iter().map(|p| p.len()).collect::<Vec<usize>>(), vec![8, 4, 4, 4, 12]);
    assert!(a.chars().all(|c| c == '-' || c.is_ascii_hexdigit()));
    assert!(parts[2].starts_with('4'));
    for _ in 0..64 {
        let id: Vec<char> = SessionStore::generate_id().chars().collect();
        assert_eq!(id.len(), 36);
        for (i, c) in id.iter().enumerate() {
            if i == 8 || i == 13 || i == 18 || i == 23 {
                assert_eq!(*c, '-');
            } else {
                assert!(('0'..='9').contains(c) || ('a'..='f').contains(c));
            }
        }
        assert_eq!(id[14], '4');
        assert!(['8', '9', 'a', 'b'].contains(&id[19]));
    }
}

#[test]
fn cookie_on_the_clock_depends_on_the_expiry_only() {
    let near = SessionStore::new(60);
    let cookie = near.create_session_cookie("abc").unwrap();
    assert_eq!(cookie.name, "session_id");
    assert_eq!(cookie.value, "abc");
    assert_eq!(cookie.path.as_deref(), Some("/"));
    assert_eq!(cookie.secure, Some(false));
    assert_eq!(cookie.http_only, Some(true));
    let far = SessionStore::new(153_722_867_280_912);
    assert!(far.create_session_cookie("abc").is_none());
    let mut response = Response::new(StatusCode::OK);
    assert!(!far.add_session_cookie(&mut response, "abc"));
    assert!(response.headers().get("set-cookie").is_none());
    assert_eq!(response.headers().iter().len(), 2);
    assert!(near.add_session_cookie(&mut response, "abc"));
    assert_eq!(response.headers().iter().len(), 3);
}

#[test]
fn operations_on_the_clock() {
    let before = Timestamp::now();
    let mut store = SessionStore::new(60);
    let id = store.create_session();
    assert_eq!(store.len(), 1);
    assert!(store.get_session(&id));
    assert!(!store.get_session("nobody"));
    let session = store.session(&id).unwrap();
    assert!(session.created_at.secs >= before.secs);
    assert!(session.last_accessed.secs >= session.created_at.secs);
    store.cleanup_expired();
    assert_eq!(store.len(), 1);
    let again = store.session_from_request(&request_with_cookie(Some(&format!("session_id={}", id))));
    assert_eq!(again, id);
    let other = store.session_from_request(&request_with_cookie(None));
    assert_ne!(other, id);
    assert_eq!(store.len(), 2);
    let mut short = SessionStore::new(-1);
    short.create_session();
    short.cleanup_expired();
    assert_eq!(short.len(), 0);
}
