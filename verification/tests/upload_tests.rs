use kang::http::upload::{find_subsequence, MultipartFormData, UploadError, UploadHandler};

fn binary_upload_body() -> Vec<u8> {
    let mut body = b"--abc\r\nContent-Disposition: form-data; name=\"f\"; filename=\"a.bin\"\r\nContent-Type: application/octet-stream\r\n\r\n".to_vec();
    body.extend_from_slice(&[0, 1, 2, 3]);
    body.extend_from_slice(b"\r\n--abc--\r\n");
    body
}

#[test]
fn one_binary_file() {
    let data = MultipartFormData::parse(&binary_upload_body(), "abc").unwrap();
    assert_eq!(data.fields.len(), 0);
    assert_eq!(data.files.len(), 1);
    assert_eq!(data.files[0].name, "f");
    assert_eq!(data.files[0].filename, "a.bin");
    assert_eq!(data.files[0].content_type, "application/octet-stream");
    assert_eq!(data.files[0].content, vec![0, 1, 2, 3]);
}

#[test]
fn fields_and_files_in_order() {
    let body = b"preamble\r\n--B\r\nContent-Disposition: form-data; name=\"title\"\r\n\r\nhello world\r\n--B\r\nContent-Disposition: form-data; name=\"one\"; filename=\"1.txt\"\r\nContent-Type: text/plain\r\n\r\nfirst\r\n--B\r\nContent-Disposition: form-data; name=\"two\"; filename=\"2.png\"\r\n\r\n\x89PNG\r\n\r\n--B\r\nContent-Disposition: form-data; name=\"title\"\r\n\r\nagain\r\n--B--\r\ntrailer";
    let data = MultipartFormData::parse(body, "B").unwrap();
    assert_eq!(data.fields.len(), 1);
    assert_eq!(data.fields.get("title").map(|s| s.as_str()), Some("again"));
    assert_eq!(data.files.len(), 2);
    assert_eq!(data.files[0].filename, "1.txt");
    assert_eq!(data.files[0].content_type, "text/plain");
    assert_eq!(data.files[0].content, b"first");
    assert_eq!(data.files[1].name, "two");
    assert_eq!(data.files[1].filename, "2.png");
    assert_eq!(data.files[1].content_type, "application/octet-stream");
    assert_eq!(data.files[1].content, b"\x89PNG\r\n");
}

#[test]
fn content_may_hold_any_bytes() {
    let mut body = b"--x\r\nContent-Disposition: form-data; name=\"f\"; filename=\"b\"\r\n\r\n".to_vec();
    let content: Vec<u8> = (0..=255u8).collect();
    body.extend_from_slice(&content);
    body.extend_from_slice(b"\r\n--x--");
    let data = MultipartFormData::parse(&body, "x").unwrap();
    assert_eq!(data.files[0].content, content);
}

#[test]
fn field_content_is_read_as_text() {
    let body = b"--x\r\nContent-Disposition: form-data; name=\"t\"\r\n\r\nh\xc3\xa9\xff!\r\n--x--";
    let data = MultipartFormData::parse(body, "x").unwrap();
    assert_eq!(data.fields.get("t").map(|s| s.as_str()), Some("h\u{e9}\u{fffd}!"));
}

#[test]
fn parts_that_do_not_count() {
    assert_eq!(MultipartFormData::parse(b"", "x").err(), Some(UploadError::EmptyBody));
    assert_eq!(MultipartFormData::parse(b"no boundary here", "x").err(), Some(UploadError::NoParts));
    assert_eq!(MultipartFormData::parse(b"--x--\r\n", "x").err(), Some(UploadError::NoParts));
    let cut_short = b"--x\r\nContent-Disposition: form-data; name=\"t\"\r\n\r\n--x--";
    assert_eq!(MultipartFormData::parse(cut_short, "x").err(), Some(UploadError::NoParts));
    let unquoted = b"--x\r\nContent-Disposition: form-data; name=t\r\n\r\nvalue\r\n--x--";
    assert_eq!(MultipartFormData::parse(unquoted, "x").err(), Some(UploadError::NoParts));
    let no_name = b"--x\r\nContent-Type: text/plain\r\n\r\nvalue\r\n--x--";
    assert_eq!(MultipartFormData::parse(no_name, "x").err(), Some(UploadError::NoParts));
    let no_crlf = b"--xContent-Disposition: form-data; name=\"t\"\r\n\r\nvalue\r\n--x--";
    assert_eq!(MultipartFormData::parse(no_crlf, "x").err(), Some(UploadError::NoParts));
    let no_head_end = b"--x\r\nContent-Disposition: form-data; name=\"t\"\r\nvalue\r\n--x--";
    assert_eq!(MultipartFormData::parse(no_head_end, "x").err(), Some(UploadError::NoParts));
}

#[test]
fn empty_content_is_content() {
    let body = b"--x\r\nContent-Disposition: form-data; name=\"t\"\r\n\r\n\r\n--x\r\nContent-Disposition: form-data; name=\"f\"; filename=\"empty.txt\"\r\n\r\n\r\n--x--";
    let data = MultipartFormData::parse(body, "x").unwrap();
    assert_eq!(data.fields.get("t").map(|s| s.as_str()), Some(""));
    assert_eq!(data.files.len(), 1);
    assert_eq!(data.files[0].filename, "empty.txt");
    assert!(data.files[0].content.is_empty());
}

#[test]
fn name_is_the_name_parameter_wherever_it_stands() {
    let body = b"--abc\r\nContent-Disposition: form-data; filename=\"a.bin\"; name=\"f\"\r\n\r\nxy\r\n--abc--\r\n";
    let data = MultipartFormData::parse(body, "abc").unwrap();
    assert_eq!(data.files.len(), 1);
    assert_eq!(data.files[0].name, "f");
    assert_eq!(data.files[0].filename, "a.bin");
    assert_eq!(data.files[0].content, b"xy");
    assert_eq!(data.fields.len(), 0);
}

#[test]
fn last_part_without_closing_mark() {
    let body = b"--x\r\nContent-Disposition: form-data; name=\"t\"\r\n\r\nvalue";
    let data = MultipartFormData::parse(body, "x").unwrap();
    assert_eq!(data.fields.get("t").map(|s| s.as_str()), Some("value"));
    let with_crlf = b"--x\r\nContent-Disposition: form-data; name=\"t\"\r\n\r\nvalue\r\n";
    let data = MultipartFormData::parse(with_crlf, "x").unwrap();
    assert_eq!(data.fields.get("t").map(|s| s.as_str()), Some("value"));
}

#[test]
fn head_values() {
    let head = "Content-Disposition: form-data; name=\"f\"; filename=\"a.bin\"\r\nContent-Type: image/png";
    assert_eq!(MultipartFormData::extract_field_name(head), Some("f".to_string()));
    assert_eq!(MultipartFormData::extract_filename(head), Some("a.bin".to_string()));
    assert_eq!(MultipartFormData::extract_content_type(head), Some("image/png".to_string()));
    let turned = "Content-Disposition: form-data; filename=\"a.bin\"; name=\"f\"";
    assert_eq!(MultipartFormData::extract_field_name(turned), Some("f".to_string()));
    assert_eq!(MultipartFormData::extract_filename(turned), Some("a.bin".to_string()));
    let tight = "Content-Disposition:form-data;name=\"n\";filename=\"\"";
    assert_eq!(MultipartFormData::extract_field_name(tight), Some("n".to_string()));
    assert_eq!(MultipartFormData::extract_filename(tight), Some(String::new()));
    assert_eq!(MultipartFormData::extract_field_name("X: y"), None);
    assert_eq!(MultipartFormData::extract_field_name("X: y; name=\"f\""), None);
    assert_eq!(MultipartFormData::extract_filename("Content-Disposition: form-data; name=\"f\""), None);
    assert_eq!(MultipartFormData::extract_content_type("Content-Disposition: form-data"), None);
    assert_eq!(MultipartFormData::extract_field_name("Content-Disposition: form-data; name=f"), None);
    assert_eq!(MultipartFormData::extract_field_name("Content-Disposition: form-data; name=\"open"), Some("open".to_string()));
    assert_eq!(MultipartFormData::extract_field_name("Content-Disposition: form-data; filename=\"only.txt\""), None);
    assert_eq!(
        MultipartFormData::extract_field_name("Content-Disposition: form-data\r\nContent-Disposition: form-data; name=\"second\""),
        Some("second".to_string())
    );
    assert_eq!(MultipartFormData::extract_content_type("Content-Type: a:b"), Some("a:b".to_string()));
    assert_eq!(MultipartFormData::extract_content_type("x\nContent-Type:   text/css  \nContent-Type: other"), Some("text/css".to_string()));
}

#[test]
fn subsequence_search() {
    assert_eq!(find_subsequence(b"hello world", b"o w"), Some(4));
    assert_eq!(find_subsequence(b"hello", b""), Some(0));
    assert_eq!(find_subsequence(b"", b""), Some(0));
    assert_eq!(find_subsequence(b"he", b"hello"), None);
    assert_eq!(find_subsequence(b"aaab", b"ab"), Some(2));
    assert_eq!(find_subsequence(b"abc", b"abd"), None);
}

#[test]
fn plan_within_the_limit() {
    let data = MultipartFormData::parse(&binary_upload_body(), "abc").unwrap();
    let plan = UploadHandler::new("10M", "./u/").handle_upload(&data);
    assert_eq!(plan.directory, "./u/uploads");
    assert!(!plan.rejected);
    assert_eq!(plan.writes.len(), 1);
    assert_eq!(plan.writes[0].path, "./u/uploads/a.bin");
    assert_eq!(plan.writes[0].filename, "a.bin");
    assert_eq!(plan.writes[0].index, 0);
}

fn body_with_sizes(sizes: &[usize]) -> Vec<u8> {
    let mut body = Vec::new();
    for (i, n) in sizes.iter().enumerate() {
        body.extend_from_slice(format!("--b\r\nContent-Disposition: form-data; name=\"f{}\"; filename=\"{}.bin\"\r\n\r\n", i, i).as_bytes());
        body.extend_from_slice(&vec![b'x'; *n]);
        body.extend_from_slice(b"\r\n");
    }
    body.extend_from_slice(b"--b--\r\n");
    body
}

#[test]
fn plan_stops_at_the_first_oversized_file() {
    let data = MultipartFormData::parse(&body_with_sizes(&[1000, 1001, 5]), "b").unwrap();
    assert_eq!(data.files.len(), 3);
    let plan = UploadHandler::new("1K", "up/").handle_upload(&data);
    assert!(plan.rejected);
    assert_eq!(plan.writes.len(), 1);
    assert_eq!(plan.writes[0].path, "up/uploads/0.bin");
    let all = UploadHandler::new("2k", "up/").handle_upload(&data);
    assert!(!all.rejected);
    assert_eq!(all.writes.len(), 3);
    assert_eq!(all.writes[2].index, 2);
    assert_eq!(all.writes[2].filename, "2.bin");
}

#[test]
fn size_cap_rejects_a_file_of_2000_bytes() {
    let data = MultipartFormData::parse(&body_with_sizes(&[2000]), "b").unwrap();
    let plan = UploadHandler::new("1K", "./u/").handle_upload(&data);
    assert!(plan.rejected);
    assert!(plan.writes.is_empty());
    assert_eq!(plan.directory, "./u/uploads");
}

#[test]
fn unreadable_limit_falls_back_to_ten_million() {
    let data = MultipartFormData::parse(&body_with_sizes(&[10_000_000]), "b").unwrap();
    assert!(!UploadHandler::new("plenty", "d").handle_upload(&data).rejected);
    assert!(!UploadHandler::new("", "d").handle_upload(&data).rejected);
    assert!(!UploadHandler::new("9999999", "d").handle_upload(&data).rejected);
    assert!(UploadHandler::new("9999K", "d").handle_upload(&data).rejected);
    let more = MultipartFormData::parse(&body_with_sizes(&[10_000_001]), "b").unwrap();
    assert!(UploadHandler::new("plenty", "d").handle_upload(&more).rejected);
    assert!(!UploadHandler::new("11M", "d").handle_upload(&more).rejected);
}
