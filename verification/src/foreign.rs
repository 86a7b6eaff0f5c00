//! The calls that leave this crate. Nothing in this file is proved: each contract
//! records what the called function is documented to do, and the verified code
//! elsewhere relies on exactly that.

use crate::text::{string_views, text_of};
use vstd::prelude::*;
use vstd::utf8::{decode_utf8, valid_utf8};

verus! {

/// The Unicode lower-case form of a text, as `str::to_lowercase` computes it.
pub uninterp spec fn lowercase(s: Seq<char>) -> Seq<char>;

/// The Unicode upper-case form of a text, as `str::to_uppercase` computes it.
pub uninterp spec fn uppercase(s: Seq<char>) -> Seq<char>;

/// What `urlencoding::decode` makes of a text: the percent-decoded text, or `None`
/// where the decoded bytes are not UTF-8.
pub uninterp spec fn percent_decoded(s: Seq<char>) -> Option<Seq<char>>;

/// What `String::from_utf8_lossy` makes of a byte string.
pub uninterp spec fn utf8_lossy(bytes: Seq<u8>) -> Seq<char>;

/// The JSON string literal for a text, quotes included, as `serde_json` writes it.
pub uninterp spec fn json_string(s: Seq<char>) -> Seq<char>;

/// The text of the JSON object that binds each of `names` to the member at the same
/// position, as `serde_json` writes it. The members are given as JSON texts.
pub uninterp spec fn json_object(names: Seq<Seq<char>>, members: Seq<Seq<char>>) -> Seq<char>;

/// The text of the JSON array of the members, as `serde_json` writes it. The members
/// are given as JSON texts.
pub uninterp spec fn json_array(members: Seq<Seq<char>>) -> Seq<char>;

/// The JSON text of a truth value.
pub open spec fn json_flag(b: bool) -> Seq<char> {
    if b {
        "true"@
    } else {
        "false"@
    }
}

/// The `Debug` rendering of a list of strings.
pub uninterp spec fn debug_list(items: Seq<Seq<char>>) -> Seq<char>;

/// The RFC 2822 date and time, in UTC, of a number of seconds since the Unix epoch,
/// as `chrono` formats it.
pub uninterp spec fn rfc2822_text(secs: i64) -> Seq<char>;

/// A decimal digit or one of the letters `a` to `f`.
pub open spec fn is_lower_hex(c: char) -> bool {
    ('0' <= c && c <= '9') || ('a' <= c && c <= 'f')
}

/// The hyphenated text of a version 4 identifier: 36 characters, hyphens after the
/// groups of 8, 4, 4 and 4 lower-case hexadecimal digits, the third group beginning
/// with the version `4` and the fourth with the variant, one of `8`, `9`, `a`, `b`.
pub open spec fn is_uuid_v4_text(s: Seq<char>) -> bool {
    &&& s.len() == 36
    &&& forall|i: int|
        0 <= i < 36 ==> if i == 8 || i == 13 || i == 18 || i == 23 {
            #[trigger] s[i] == '-'
        } else {
            is_lower_hex(s[i])
        }
    &&& s[14] == '4'
    &&& (s[19] == '8' || s[19] == '9' || s[19] == 'a' || s[19] == 'b')
}

/// Whether a percent sign occurs in `s`.
pub open spec fn has_percent(s: Seq<char>) -> bool {
    s.contains('%')
}

/// The first second of the year 0, before which RFC 2822 can write no date, in
/// seconds since the Unix epoch.
pub const RFC2822_MIN_SECS: i64 = -62_167_219_200;

/// The last second of the year 9999, after which RFC 2822 can write no date, in
/// seconds since the Unix epoch.
pub const RFC2822_MAX_SECS: i64 = 253_402_300_799;

/// Calls `str::to_lowercase`. The contract only names the result.
#[verifier::external_body]
pub(crate) fn to_lowercase(s: &str) -> (r: String)
    ensures
        r@ == lowercase(s@),
{
    s.to_lowercase()
}

/// Calls `str::to_uppercase`. The contract only names the result.
#[verifier::external_body]
pub(crate) fn to_uppercase(s: &str) -> (r: String)
    ensures
        r@ == uppercase(s@),
{
    s.to_uppercase()
}

/// Calls `urlencoding::decode`. The contract names the result, and adds what the
/// decoder's first lines show: a text without a percent sign is handed back as it is.
#[verifier::external_body]
pub(crate) fn percent_decode(s: &str) -> (r: Option<String>)
    ensures
        text_of(r) == percent_decoded(s@),
        !has_percent(s@) ==> text_of(r) == Some(s@),
{
    match urlencoding::decode(s) {
        Ok(t) => Some(t.into_owned()),
        Err(_) => None,
    }
}

/// Calls `core::str::from_utf8`: a string slice exactly when the bytes are valid
/// UTF-8, and then the text that they encode.
#[verifier::external_body]
pub(crate) fn utf8_text(bytes: &[u8]) -> (r: Option<&str>)
    ensures
        r is Some <==> valid_utf8(bytes@),
        r matches Some(s) ==> s@ == decode_utf8(bytes@),
{
    match core::str::from_utf8(bytes) {
        Ok(s) => Some(s),
        Err(_) => None,
    }
}

/// Calls `String::from_utf8_lossy`. The contract names the result, and adds that
/// valid UTF-8 is decoded unchanged.
#[verifier::external_body]
pub(crate) fn utf8_text_lossy(bytes: &[u8]) -> (r: String)
    ensures
        r@ == utf8_lossy(bytes@),
        valid_utf8(bytes@) ==> r@ == decode_utf8(bytes@),
{
    String::from_utf8_lossy(bytes).into_owned()
}

/// Renders a JSON string value with `serde_json`. The contract only names the result.
#[verifier::external_body]
pub(crate) fn json_quote(s: &str) -> (r: String)
    ensures
        r@ == json_string(s@),
{
    serde_json::Value::String(s.to_owned()).to_string()
}

/// Renders a JSON truth value with `serde_json`, which writes `true` or `false`.
#[verifier::external_body]
pub(crate) fn json_flag_text(b: bool) -> (r: String)
    ensures
        r@ == json_flag(b),
{
    serde_json::Value::Bool(b).to_string()
}

/// Renders a JSON object with `serde_json`: each member text is read back with
/// `serde_json::from_str` (a text that cannot be read counts as `null`), put into a
/// `serde_json::Map` under its name, and the object is written. The contract only
/// names the result.
#[verifier::external_body]
pub(crate) fn json_object_text(names: &Vec<String>, members: &Vec<String>) -> (r: String)
    ensures
        r@ == json_object(string_views(names@), string_views(members@)),
{
    let mut map = serde_json::Map::new();
    for (name, member) in names.iter().zip(members.iter()) {
        map.insert(name.clone(), serde_json::from_str(member).unwrap_or(serde_json::Value::Null));
    }
    serde_json::Value::Object(map).to_string()
}

/// Renders a JSON array with `serde_json`: each member text is read back with
/// `serde_json::from_str` (a text that cannot be read counts as `null`), and the
/// array is written. The contract only names the result.
#[verifier::external_body]
pub(crate) fn json_array_text(members: &Vec<String>) -> (r: String)
    ensures
        r@ == json_array(string_views(members@)),
{
    let mut items = Vec::new();
    for member in members.iter() {
        items.push(serde_json::from_str(member).unwrap_or(serde_json::Value::Null));
    }
    serde_json::Value::Array(items).to_string()
}

/// Formats a list of strings with its `Debug` implementation. The contract only
/// names the result.
#[verifier::external_body]
pub(crate) fn debug_format_list(items: &Vec<String>) -> (r: String)
    ensures
        r@ == debug_list(string_views(items@)),
{
    format!("{:?}", items)
}

/// Formats a time with `chrono::DateTime::to_rfc2822`, which panics outside the
/// years 0 to 9999; the precondition keeps to that range. The contract only names
/// the result.
#[verifier::external_body]
pub(crate) fn format_rfc2822(secs: i64) -> (r: String)
    requires
        RFC2822_MIN_SECS <= secs <= RFC2822_MAX_SECS,
    ensures
        r@ == rfc2822_text(secs),
{
    chrono::DateTime::from_timestamp(secs, 0).unwrap().to_rfc2822()
}

/// Reads the clock with `chrono::Utc::now`: the seconds since the Unix epoch and the
/// nanoseconds within the second. Nothing is claimed of the result. `chrono` panics
/// where the system clock stands before the epoch.
#[verifier::external_body]
pub(crate) fn current_time() -> (r: (i64, u32)) {
    let t = chrono::Utc::now();
    (t.timestamp(), t.timestamp_subsec_nanos())
}

/// Draws a random version 4 identifier with `uuid::Uuid::new_v4` and writes it in
/// the hyphenated form. The contract claims the form of the text, which holds of
/// every identifier drawn: `new_v4` fixes the version and variant bits, and the
/// text is written in lower case with hyphens. Nothing is claimed of which
/// identifier it is.
#[verifier::external_body]
pub(crate) fn random_uuid() -> (r: String)
    ensures
        is_uuid_v4_text(r@),
{
    uuid::Uuid::new_v4().to_string()
}

} // verus!
