use kang::chars::{
    chars_eq, chars_of, decimal_chars, decimal_string, ends_with_chars,
    find_chars, lines_chars, parse_u64_chars, split_chars, split_whitespace_chars,
    starts_with_chars, string_of, strip_leading_chars, strip_trailing_chars, trim_chars,
    trim_matches_chars,
};
use kang::string_map::StringMap;
use kang::text::{append_bytes, find_bytes_from, CharClass};
use kang::utils::parse_size;

fn cs(s: &str) -> Vec<char> {
    s.chars().collect()
}

fn texts(parts: &Vec<Vec<char>>) -> Vec<String> {
    parts.iter().map(|p| p.iter().collect::<String>()).collect()
}

#[test]
fn chars_round_trip() {
    let s = "héllo \u{3000}wörld";
    assert_eq!(chars_of(s), cs(s));
    assert_eq!(string_of(&chars_of(s)), s);
    assert_eq!(string_of(&[]), "");
    assert!(chars_of("").is_empty());
}

#[test]
fn equality_of_texts() {
    assert!(chars_eq(&cs("abc"), &cs("abc")));
    assert!(!chars_eq(&cs("abc"), &cs("abd")));
    assert!(!chars_eq(&cs("abc"), &cs("ab")));
    assert!(chars_eq(&cs(""), &cs("")));
}

#[test]
fn find_first_occurrence() {
    assert_eq!(find_chars(&cs("abcabc"), &cs("bc")), Some(1));
    assert_eq!(find_chars(&cs("abcabc"), &cs("cb")), None);
    assert_eq!(find_chars(&cs("abc"), &cs("")), Some(0));
    assert_eq!(find_chars(&cs(""), &cs("a")), None);
    assert_eq!(find_chars(&cs("aaa"), &cs("aaaa")), None);
    assert_eq!(find_chars(&cs("aab"), &cs("ab")), Some(1));
}

#[test]
fn find_bytes_from_position() {
    assert_eq!(find_bytes_from(b"--a--a", b"--a", 0), Some(0));
    assert_eq!(find_bytes_from(b"--a--a", b"--a", 1), Some(3));
    assert_eq!(find_bytes_from(b"--a--a", b"--a", 4), None);
    assert_eq!(find_bytes_from(b"abc", b"", 3), Some(3));
    assert_eq!(find_bytes_from(b"abc", b"", 4), None);
    assert_eq!(find_bytes_from(b"", b"a", 0), None);
}

#[test]
fn prefixes_and_suffixes() {
    assert!(starts_with_chars(&cs("/static/x"), &cs("/static")));
    assert!(!starts_with_chars(&cs("/stat"), &cs("/static")));
    assert!(starts_with_chars(&cs("x"), &cs("")));
    assert!(ends_with_chars(&cs("a.php"), &cs(".php")));
    assert!(!ends_with_chars(&cs("a.phpx"), &cs(".php")));
    assert!(!ends_with_chars(&cs("hp"), &cs(".php")));
}

#[test]
fn trimming() {
    assert_eq!(string_of(trim_chars(&cs("  x y \t\r\n"))), "x y");
    assert_eq!(string_of(trim_chars(&cs("\u{3000}a\u{a0}"))), "a");
    assert_eq!(string_of(trim_chars(&cs("   "))), "");
    assert_eq!(string_of(trim_chars(&cs(""))), "");
    assert_eq!(string_of(trim_matches_chars(&cs("\"\"ab\"c\""), '"')), "ab\"c");
    assert_eq!(string_of(strip_trailing_chars(&cs("/a//"), CharClass::Only('/'))), "/a");
    assert_eq!(string_of(strip_trailing_chars(&cs("///"), CharClass::Only('/'))), "");
    assert_eq!(string_of(strip_leading_chars(&cs("//a/"), CharClass::Only('/'))), "a/");
}

#[test]
fn splitting_on_a_delimiter() {
    assert_eq!(texts(&split_chars(&cs("a,b,,c"), &cs(","))), vec!["a", "b", "", "c"]);
    assert_eq!(texts(&split_chars(&cs("abc"), &cs(","))), vec!["abc"]);
    assert_eq!(texts(&split_chars(&cs(""), &cs(","))), vec![""]);
    assert_eq!(texts(&split_chars(&cs(","), &cs(","))), vec!["", ""]);
    assert_eq!(texts(&split_chars(&cs("a\r\nb\r\n\r\nc"), &cs("\r\n"))), vec!["a", "b", "", "c"]);
    assert_eq!(texts(&split_chars(&cs("aaa"), &cs("aa"))), vec!["", "a"]);
}

#[test]
fn splitting_on_whitespace() {
    assert_eq!(
        texts(&split_whitespace_chars(&cs("  GET   /  HTTP/1.1 "))),
        vec!["GET", "/", "HTTP/1.1"]
    );
    assert!(split_whitespace_chars(&cs("   ")).is_empty());
    assert!(split_whitespace_chars(&cs("")).is_empty());
    assert_eq!(texts(&split_whitespace_chars(&cs("a\tb\nc"))), vec!["a", "b", "c"]);
}

#[test]
fn splitting_into_lines() {
    assert_eq!(texts(&lines_chars(&cs("a\r\nb\nc\r\n"))), vec!["a", "b", "c"]);
    assert_eq!(texts(&lines_chars(&cs("a\n\nb"))), vec!["a", "", "b"]);
    assert!(lines_chars(&cs("")).is_empty());
    assert_eq!(texts(&lines_chars(&cs("\n"))), vec![""]);
    assert_eq!(texts(&lines_chars(&cs("x\r"))), vec!["x\r"]);
    assert_eq!(texts(&lines_chars(&cs("x\r\r\ny"))), vec!["x\r", "y"]);
}

#[test]
fn lines_agree_with_the_standard_library() {
    for s in ["", "a", "a\n", "a\r\n", "\r\n\r\n", "a\rb\n", "a\n\r\nb\r", "\n\n\n", "é\r\nü"] {
        let expected: Vec<String> = s.lines().map(|l| l.to_string()).collect();
        assert_eq!(texts(&lines_chars(&cs(s))), expected, "lines of {:?}", s);
    }
}

#[test]
fn trimming_agrees_with_the_standard_library() {
    for s in ["", " a ", "\u{85}a\u{2028}", "\u{200b}a", "\u{1680}\u{2000}\u{200a}x\u{202f}\u{205f}", "\u{b}\u{c}z"] {
        assert_eq!(string_of(trim_chars(&cs(s))), s.trim(), "trim of {:?}", s);
    }
}

#[test]
fn parsing_numbers() {
    assert_eq!(parse_u64_chars(&cs("0")), Some(0));
    assert_eq!(parse_u64_chars(&cs("007")), Some(7));
    assert_eq!(parse_u64_chars(&cs("+5")), Some(5));
    assert_eq!(parse_u64_chars(&cs("")), None);
    assert_eq!(parse_u64_chars(&cs("+")), None);
    assert_eq!(parse_u64_chars(&cs("-1")), None);
    assert_eq!(parse_u64_chars(&cs("++1")), None);
    assert_eq!(parse_u64_chars(&cs("12a")), None);
    assert_eq!(parse_u64_chars(&cs(" 1")), None);
    assert_eq!(parse_u64_chars(&cs("18446744073709551615")), Some(u64::MAX));
    assert_eq!(parse_u64_chars(&cs("18446744073709551616")), None);
    assert_eq!(parse_u64_chars(&cs("99999999999999999999999")), None);
    assert_eq!(parse_u64_chars(&cs("٣")), None);
}

#[test]
fn parsing_numbers_agrees_with_the_standard_library() {
    for s in ["", "+", "-", "+0", "-0", "1_000", "0x10", "42", "18446744073709551615", "18446744073709551616", "1 "] {
        assert_eq!(parse_u64_chars(&cs(s)), s.parse::<u64>().ok(), "parse of {:?}", s);
    }
}

#[test]
fn writing_numbers() {
    assert_eq!(decimal_string(0), "0");
    assert_eq!(decimal_string(9), "9");
    assert_eq!(decimal_string(10), "10");
    assert_eq!(decimal_string(2000), "2000");
    assert_eq!(decimal_string(u64::MAX), "18446744073709551615");
    assert_eq!(decimal_chars(405), cs("405"));
}

#[test]
fn appending_bytes() {
    let mut v = vec![1u8, 2];
    append_bytes(&mut v, &[3, 4, 5]);
    assert_eq!(v, vec![1, 2, 3, 4, 5]);
    append_bytes(&mut v, &[]);
    assert_eq!(v, vec![1, 2, 3, 4, 5]);
}

#[test]
fn string_map_keeps_first_position_and_last_value() {
    let mut m = StringMap::new();
    assert_eq!(m.len(), 0);
    assert!(m.get("a").is_none());
    m.insert("a".to_string(), "1".to_string());
    m.insert("b".to_string(), "2".to_string());
    m.insert("a".to_string(), "3".to_string());
    assert_eq!(m.len(), 2);
    assert_eq!(m.get("a").map(|s| s.as_str()), Some("3"));
    assert_eq!(m.get("b").map(|s| s.as_str()), Some("2"));
    assert!(m.contains_key("a"));
    assert!(!m.contains_key("A"));
    assert_eq!(m.entries[0], ("a".to_string(), "3".to_string()));
    assert_eq!(m.entries[1], ("b".to_string(), "2".to_string()));
    let copy = m.duplicate();
    assert_eq!(copy.entries, m.entries);
}

#[test]
fn size_strings() {
    assert_eq!(parse_size(""), None);
    assert_eq!(parse_size("10"), None);
    assert_eq!(parse_size("0K"), Some(0));
    assert_eq!(parse_size("1K"), Some(1_000));
    assert_eq!(parse_size("1k"), Some(1_000));
    assert_eq!(parse_size("2M"), Some(2_000_000));
    assert_eq!(parse_size("2m"), Some(2_000_000));
    assert_eq!(parse_size("3G"), Some(3_000_000_000));
    assert_eq!(parse_size("3g"), Some(3_000_000_000));
    assert_eq!(parse_size("K"), None);
    assert_eq!(parse_size("1.5M"), None);
    assert_eq!(parse_size("10X"), None);
    assert_eq!(parse_size("10%"), None);
    assert_eq!(parse_size(" 10K"), None);
    assert_eq!(parse_size("10é"), None);
    assert_eq!(parse_size("18446744073709551615"), None);
    assert_eq!(parse_size("18446744073709551K"), Some(18446744073709551000));
    assert_eq!(parse_size("18446744073709552K"), None);
    assert_eq!(parse_size("18446744073709551615G"), None);
}
