use kang::http::files::{DirectoryEntry, FileServer};
use kang::http::status::StatusCode;

fn entry(name: &str, is_dir: bool) -> DirectoryEntry {
    DirectoryEntry { name: name.to_string(), relative_path: name.to_string(), is_dir }
}

fn names(entries: &Vec<DirectoryEntry>) -> Vec<&str> {
    entries.iter().map(|e| e.name.as_str()).collect()
}

#[test]
fn content_types() {
    let table = [
        ("html", "text/html"),
        ("css", "text/css"),
        ("js", "application/javascript"),
        ("png", "image/png"),
        ("jpg", "image/jpeg"),
        ("jpeg", "image/jpeg"),
        ("gif", "image/gif"),
        ("svg", "image/svg+xml"),
        ("webp", "image/webp"),
        ("ico", "image/x-icon"),
        ("pdf", "application/pdf"),
        ("json", "application/json"),
        ("xml", "application/xml"),
        ("txt", "text/plain"),
        ("bin", "application/octet-stream"),
        ("HTML", "application/octet-stream"),
        ("", "application/octet-stream"),
        ("htm", "application/octet-stream"),
    ];
    for (extension, expected) in table {
        assert_eq!(FileServer::content_type_for(extension), expected);
    }
}

#[test]
fn file_responses() {
    let css = FileServer::serve_file(Some("css"), Some(b"a{}".to_vec()));
    assert_eq!(css.status_code(), &StatusCode::OK);
    assert_eq!(css.headers().get("content-type").map(|s| s.as_str()), Some("text/css"));
    assert_eq!(css.headers().get("content-length").map(|s| s.as_str()), Some("3"));
    assert_eq!(css.body(), b"a{}");
    let bare = FileServer::serve_file(None, Some(vec![1, 2, 3, 4]));
    assert_eq!(bare.headers().get("content-type").map(|s| s.as_str()), Some("application/octet-stream"));
    assert_eq!(bare.headers().get("content-length").map(|s| s.as_str()), Some("4"));
    let failed = FileServer::serve_file(Some("css"), None);
    assert_eq!(failed.status_code(), &StatusCode::InternalServerError);
    assert!(failed.body().is_empty());
    assert!(failed.headers().get("content-length").is_none());
}

#[test]
fn repeated_gets_give_the_same_bytes() {
    let first = FileServer::serve_file(Some("txt"), Some(b"same file".to_vec())).to_bytes();
    let second = FileServer::serve_file(Some("txt"), Some(b"same file".to_vec())).to_bytes();
    assert_eq!(first, second);
    assert_eq!(
        String::from_utf8(first).unwrap(),
        "HTTP/1.1 200 OK\r\nserver: Kang\r\nconnection: close\r\ncontent-type: text/plain\r\ncontent-length: 9\r\n\r\nsame file"
    );
}

#[test]
fn order_of_the_dictionary() {
    let before = |a: &str, b: &str| {
        FileServer::text_is_before(&a.chars().collect::<Vec<char>>(), &b.chars().collect::<Vec<char>>())
    };
    assert!(before("a", "b"));
    assert!(!before("b", "a"));
    assert!(!before("a", "a"));
    assert!(before("", "a"));
    assert!(!before("a", ""));
    assert!(!before("", ""));
    assert!(before("a", "ab"));
    assert!(before("B", "a"));
    assert!(before("a10", "a9"));
    assert!(before("z", "é"));
    for (a, b) in [("abc", "abd"), ("x", "x"), ("é", "z"), ("", ""), ("A", "a"), ("ab", "a")] {
        assert_eq!(before(a, b), a < b);
    }
}

#[test]
fn directories_first_then_by_name() {
    let entries = vec![
        entry("zeta.txt", false),
        entry("beta", true),
        entry("Alpha.txt", false),
        entry("alpha", true),
        entry("alpha.txt", false),
        entry("Beta", true),
    ];
    let sorted = FileServer::sort_entries(&entries);
    assert_eq!(names(&sorted), vec!["Beta", "alpha", "beta", "Alpha.txt", "alpha.txt", "zeta.txt"]);
    assert!(sorted[0].is_dir && sorted[1].is_dir && sorted[2].is_dir);
    assert!(!sorted[3].is_dir);
    assert!(FileServer::sort_entries(&Vec::new()).is_empty());
    assert!(FileServer::is_listed_before(&entry("z", true), &entry("a", false)));
    assert!(!FileServer::is_listed_before(&entry("a", false), &entry("z", true)));
}

#[test]
fn equal_names_keep_their_order() {
    let mut first = entry("same", false);
    first.relative_path = "one/same".to_string();
    let mut second = entry("same", false);
    second.relative_path = "two/same".to_string();
    let sorted = FileServer::sort_entries(&vec![first, entry("a", false), second]);
    let paths: Vec<&str> = sorted.iter().map(|e| e.relative_path.as_str()).collect();
    assert_eq!(paths, vec!["a", "one/same", "two/same"]);
}

#[test]
fn directory_listing_as_html() {
    let entries = vec![entry("a.txt", false), entry("sub", true)];
    let response = FileServer::serve_directory_listing(&entries, "/d", None);
    assert_eq!(response.status_code(), &StatusCode::OK);
    assert_eq!(response.headers().get("content-type").map(|s| s.as_str()), Some("text/html"));
    let html = String::from_utf8(response.body().to_vec()).unwrap();
    assert_eq!(
        html,
        "<html><body><ul><li><a href=\"/d/sub/\">sub</a></li><li><a href=\"/d/a.txt\">a.txt</a></li></ul></body></html>"
    );
    assert!(html.find("sub/").unwrap() < html.find("a.txt").unwrap());
    assert_eq!(
        response.headers().get("content-length").map(|s| s.as_str()),
        Some(format!("{}", html.len()).as_str())
    );
    let slashed = FileServer::serve_directory_listing(&entries, "/d//", Some("html"));
    assert_eq!(slashed.body(), response.body());
    let other = FileServer::serve_directory_listing(&entries, "/d", Some("JSON"));
    assert_eq!(other.body(), response.body());
}

#[test]
fn empty_directory_listing() {
    let html = FileServer::serve_directory_listing(&Vec::new(), "/", None);
    assert_eq!(html.body(), b"<html><body><ul></ul></body></html>");
    let json = FileServer::serve_directory_listing(&Vec::new(), "/", Some("json"));
    assert_eq!(json.body(), b"{\"directory\":\"/\",\"entries\":[]}");
}

#[test]
fn directory_listing_as_json() {
    let entries = vec![entry("a.txt", false), entry("sub", true), entry("q\"uo\\te\n", false)];
    let response = FileServer::serve_directory_listing(&entries, "/d/", Some("json"));
    assert_eq!(response.headers().get("content-type").map(|s| s.as_str()), Some("application/json"));
    let text = String::from_utf8(response.body().to_vec()).unwrap();
    assert_eq!(
        text,
        "{\"directory\":\"/d/\",\"entries\":[{\"is_directory\":true,\"link\":\"/d/sub/\",\"name\":\"sub\"},{\"is_directory\":false,\"link\":\"/d/a.txt\",\"name\":\"a.txt\"},{\"is_directory\":false,\"link\":\"/d/q\\\"uo\\\\te\\n\",\"name\":\"q\\\"uo\\\\te\\n\"}]}"
    );
    let value: serde_json::Value = serde_json::from_str(&text).unwrap();
    assert_eq!(value["directory"], "/d/");
    assert_eq!(value["entries"][0]["name"], "sub");
    assert_eq!(value["entries"][0]["is_directory"], true);
    assert_eq!(value["entries"][2]["name"], "q\"uo\\te\n");
    assert_eq!(value.to_string(), text);
}
