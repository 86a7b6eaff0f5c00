//! Header fields of a message.
//!
//! Names are kept in lower case, so that a lookup does not depend on the case in
//! which a name was written. A name that is set again takes the new value.

use crate::chars::{
    chars_eq, chars_of, find_chars, parse_u64_chars, split_chars, starts_with_chars, string_of,
    trim_chars, trim_matches_chars,
};
use crate::foreign::{lowercase, to_lowercase};
use crate::http::cookies::{Cookie, CookieView};
use crate::string_map::{lookup, upsert, Pairs, StringMap};
use crate::text::{find, parse_u64, seqs_of, split, split_once, starts_with, trim, trim_matches};
use vstd::prelude::*;
use vstd::slice::slice_subrange;

verus! {

/// The header field that a line `name: value` declares: the lower-case form of the
/// trimmed name, and the trimmed value. A line without a colon declares none.
pub open spec fn header_of_line(line: Seq<char>) -> Option<(Seq<char>, Seq<char>)> {
    match find(line, seq![':']) {
        Some(i) => Some((lowercase(trim(line.take(i))), trim(line.skip(i + 1)))),
        None => None,
    }
}

/// The header fields that a sequence of lines declares, later lines overriding
/// earlier ones of the same name.
pub open spec fn headers_of_lines(lines: Seq<Seq<char>>) -> Pairs
    decreases lines.len(),
{
    if lines.len() == 0 {
        Seq::empty()
    } else {
        let before = headers_of_lines(lines.drop_last());
        match header_of_line(lines.last()) {
            Some((name, value)) => upsert(before, name, value),
            None => before,
        }
    }
}

/// The body length that header fields declare: the number in the `content-length`
/// field, where there is one and it is a number.
pub open spec fn content_length_of(headers: Pairs) -> Option<u64> {
    match lookup(headers, "content-length"@) {
        Some(t) => parse_u64(t),
        None => None,
    }
}

/// The boundary that the first of `parts` with a `boundary=` parameter declares,
/// without surrounding double quotes.
pub open spec fn boundary_in(parts: Seq<Seq<char>>) -> Option<Seq<char>>
    decreases parts.len(),
{
    if parts.len() == 0 {
        None
    } else {
        let t = trim(parts[0]);
        if starts_with(t, "boundary="@) {
            Some(trim_matches(t.skip("boundary="@.len() as int), '"'))
        } else {
            boundary_in(parts.drop_first())
        }
    }
}

/// The multipart boundary that a `Content-Type` value declares.
pub open spec fn boundary_of(content_type: Seq<char>) -> Option<Seq<char>> {
    boundary_in(split(content_type, seq![';']))
}

/// The value of the first of `parts` that, trimmed, reads `name=value`.
pub open spec fn cookie_in(parts: Seq<Seq<char>>, name: Seq<char>) -> Option<Seq<char>>
    decreases parts.len(),
{
    if parts.len() == 0 {
        None
    } else {
        match split_once(trim(parts[0]), seq!['=']) {
            Some((n, v)) => if n == name {
                Some(v)
            } else {
                cookie_in(parts.drop_first(), name)
            },
            None => cookie_in(parts.drop_first(), name),
        }
    }
}

/// The value that a `Cookie` header gives to the cookie `name`.
pub open spec fn cookie_value(header: Seq<char>, name: Seq<char>) -> Option<Seq<char>> {
    cookie_in(split(header, seq![';']), name)
}

/// The header fields of a message.
#[derive(Debug, Clone)]
pub struct Headers {
    headers: StringMap,
}

impl View for Headers {
    type V = Pairs;

    closed spec fn view(&self) -> Pairs {
        self.headers@
    }
}

impl Headers {
    /// No header field.
    pub fn new() -> (h: Headers)
        ensures
            h@ == Seq::<(Seq<char>, Seq<char>)>::empty(),
    {
        Headers { headers: StringMap::new() }
    }

    /// The value of the field with the lower-case name `name`.
    pub open spec fn field(&self, name: Seq<char>) -> Option<Seq<char>> {
        lookup(self@, name)
    }

    /// Sets the field `key`, whatever its case, to `value`.
    pub fn add(&mut self, key: &str, value: &str)
        ensures
            final(self)@ == upsert(old(self)@, lowercase(key@), value@),
    {
        let name = to_lowercase(key);
        self.headers.insert(name, value.to_owned());
    }

    /// Sets the field with the lower-case name `name` to `value`.
    pub fn set(&mut self, name: &str, value: &str)
        ensures
            final(self)@ == upsert(old(self)@, name@, value@),
    {
        self.headers.insert(name.to_owned(), value.to_owned());
    }

    /// The value of the field `key`, whatever its case.
    pub fn get(&self, key: &str) -> (r: Option<&String>)
        ensures
            match r {
                Some(v) => self.field(lowercase(key@)) == Some(v@),
                None => self.field(lowercase(key@)) is None,
            },
    {
        let name = to_lowercase(key);
        self.headers.get(name.as_str())
    }

    /// The value of the field with the lower-case name `name`.
    pub fn get_exact(&self, name: &str) -> (r: Option<&String>)
        ensures
            match r {
                Some(v) => self.field(name@) == Some(v@),
                None => self.field(name@) is None,
            },
    {
        self.headers.get(name)
    }

    /// Whether the field `key` is present, whatever its case.
    pub fn contains(&self, key: &str) -> (r: bool)
        ensures
            r == self.field(lowercase(key@)).is_some(),
    {
        self.get(key).is_some()
    }

    /// The fields that the lines declare, each of the form `name: value`.
    pub fn parse(header_lines: &[&str]) -> (h: Headers)
        ensures
            h@ == headers_of_lines(Seq::new(header_lines@.len(), |i: int| header_lines@[i]@)),
    {
        let mut lines: Vec<Vec<char>> = Vec::new();
        let n = header_lines.len();
        let mut i: usize = 0;
        while i < n
            invariant
                n == header_lines@.len(),
                i <= n,
                lines@.len() == i,
                forall|k: int| 0 <= k < i ==> (#[trigger] lines@[k])@ == header_lines@[k]@,
            decreases n - i,
        {
            lines.push(chars_of(header_lines[i]));
            i += 1;
        }
        proof {
            assert(seqs_of(lines@) =~= Seq::new(
                header_lines@.len(),
                |i: int| header_lines@[i]@,
            ));
        }
        Self::parse_lines(lines.as_slice())
    }

    /// The fields that the lines declare, the lines given as characters.
    pub fn parse_lines(lines: &[Vec<char>]) -> (h: Headers)
        ensures
            h@ == headers_of_lines(seqs_of(lines@)),
    {
        let mut h = Headers::new();
        let colon: [char; 1] = [':'];
        let n = lines.len();
        let mut i: usize = 0;
        proof {
            assert(seqs_of(lines@).take(0) =~= Seq::<Seq<char>>::empty());
        }
        while i < n
            invariant
                n == lines@.len(),
                i <= n,
                colon@ == seq![':'],
                h@ == headers_of_lines(seqs_of(lines@).take(i as int)),
            decreases n - i,
        {
            let line = lines[i].as_slice();
            proof {
                let upto = seqs_of(lines@).take(i + 1);
                assert(upto.drop_last() =~= seqs_of(lines@).take(i as int));
                assert(upto.last() == line@);
            }
            match find_chars(line, colon.as_slice()) {
                Some(c) => {
                    let end = line.len();
                    let name = trim_chars(slice_subrange(line, 0, c));
                    let value = trim_chars(slice_subrange(line, c + 1, end));
                    proof {
                        assert(line@.subrange(0, c as int) =~= line@.take(c as int));
                        assert(line@.subrange(c + 1, end as int) =~= line@.skip(c + 1));
                    }
                    let name = string_of(name);
                    let value = string_of(value);
                    h.add(name.as_str(), value.as_str());
                },
                None => {},
            }
            i += 1;
        }
        proof {
            assert(seqs_of(lines@).take(n as int) =~= seqs_of(lines@));
        }
        h
    }

    /// Whether the content type is `multipart/form-data`, in any case of letters.
    pub fn is_multipart_form_data(&self) -> (r: bool)
        ensures
            r == match self.field("content-type"@) {
                Some(t) => starts_with(lowercase(t), "multipart/form-data"@),
                None => false,
            },
    {
        match self.get_exact("content-type") {
            Some(content_type) => Self::is_multipart_type(
                to_lowercase(content_type.as_str()).as_str(),
            ),
            None => false,
        }
    }

    /// Whether a content type, given in lower case, is `multipart/form-data`.
    pub fn is_multipart_type(lower: &str) -> (r: bool)
        ensures
            r == starts_with(lower@, "multipart/form-data"@),
    {
        let l = chars_of(lower);
        let p = chars_of("multipart/form-data");
        starts_with_chars(l.as_slice(), p.as_slice())
    }

    /// The multipart boundary that the content type declares.
    pub fn get_boundary(&self) -> (r: Option<String>)
        ensures
            crate::text::text_of(r) == match self.field("content-type"@) {
                Some(t) => boundary_of(t),
                None => None,
            },
    {
        self.get_multipart_boundary()
    }

    /// The multipart boundary that the content type declares: the text after
    /// `boundary=` in the first `;`-separated part that begins with it, without
    /// surrounding double quotes.
    pub fn get_multipart_boundary(&self) -> (r: Option<String>)
        ensures
            crate::text::text_of(r) == match self.field("content-type"@) {
                Some(t) => boundary_of(t),
                None => None,
            },
    {
        let content_type = match self.get_exact("content-type") {
            Some(t) => chars_of(t.as_str()),
            None => {
                return None;
            },
        };
        let semicolon: [char; 1] = [';'];
        proof {
            assert(semicolon@ =~= seq![';']);
        }
        let prefix = chars_of("boundary=");
        let parts = split_chars(content_type.as_slice(), semicolon.as_slice());
        let n = parts.len();
        let mut i: usize = 0;
        proof {
            assert(seqs_of(parts@).skip(0) =~= seqs_of(parts@));
        }
        while i < n
            invariant
                n == parts@.len(),
                i <= n,
                prefix@ == "boundary="@,
                self.field("content-type"@) == Some(content_type@),
                seqs_of(parts@) == split(content_type@, seq![';']),
                boundary_in(seqs_of(parts@)) == boundary_in(seqs_of(parts@).skip(i as int)),
            decreases n - i,
        {
            let t = trim_chars(parts[i].as_slice());
            proof {
                let rest = seqs_of(parts@).skip(i as int);
                assert(rest[0] == parts@[i as int]@);
                assert(rest.drop_first() =~= seqs_of(parts@).skip(i + 1));
            }
            if starts_with_chars(t, prefix.as_slice()) {
                let end = t.len();
                let raw = slice_subrange(t, prefix.len(), end);
                proof {
                    assert(raw@ =~= t@.skip(prefix@.len() as int));
                }
                let b = trim_matches_chars(raw, '"');
                return Some(string_of(b));
            }
            i += 1;
        }
        None
    }

    /// The declared length of the body, where the field is a number.
    pub fn get_content_length(&self) -> (r: Option<u64>)
        ensures
            r == content_length_of(self@),
    {
        match self.get_exact("content-length") {
            Some(length) => {
                let l = chars_of(length.as_str());
                parse_u64_chars(l.as_slice())
            },
            None => None,
        }
    }

    /// The fields, in the order in which their names were first set.
    pub fn iter(&self) -> (r: &Vec<(String, String)>)
        ensures
            r@.len() == self@.len(),
            forall|i: int| 0 <= i < r@.len() ==> (r@[i].0@, r@[i].1@) == #[trigger] self@[i],
    {
        &self.headers.entries
    }

    /// The cookie `name` of the `Cookie` header, with its value and no attribute.
    pub fn get_cookie(&self, name: &str) -> (r: Option<Cookie>)
        ensures
            match self.field("cookie"@) {
                Some(header) => match cookie_value(header, name@) {
                    Some(value) => r matches Some(c) && c@ == (CookieView {
                        name: name@,
                        value: value,
                        expires: None,
                        path: None,
                        domain: None,
                        secure: None,
                        http_only: None,
                    }),
                    None => r is None,
                },
                None => r is None,
            },
    {
        let header = match self.get_exact("cookie") {
            Some(t) => chars_of(t.as_str()),
            None => {
                return None;
            },
        };
        let semicolon: [char; 1] = [';'];
        proof {
            assert(semicolon@ =~= seq![';']);
        }
        let equals: [char; 1] = ['='];
        let wanted = chars_of(name);
        let parts = split_chars(header.as_slice(), semicolon.as_slice());
        let n = parts.len();
        let mut i: usize = 0;
        proof {
            assert(seqs_of(parts@).skip(0) =~= seqs_of(parts@));
        }
        while i < n
            invariant
                n == parts@.len(),
                i <= n,
                equals@ == seq!['='],
                wanted@ == name@,
                self.field("cookie"@) == Some(header@),
                seqs_of(parts@) == split(header@, seq![';']),
                cookie_in(seqs_of(parts@), name@) == cookie_in(
                    seqs_of(parts@).skip(i as int),
                    name@,
                ),
            decreases n - i,
        {
            let t = trim_chars(parts[i].as_slice());
            proof {
                let rest = seqs_of(parts@).skip(i as int);
                assert(rest[0] == parts@[i as int]@);
                assert(rest.drop_first() =~= seqs_of(parts@).skip(i + 1));
            }
            match find_chars(t, equals.as_slice()) {
                Some(e) => {
                    let end = t.len();
                    let n0 = slice_subrange(t, 0, e);
                    let v0 = slice_subrange(t, e + 1, end);
                    proof {
                        assert(n0@ =~= t@.take(e as int));
                        assert(v0@ =~= t@.skip(e + 1));
                    }
                    if chars_eq(n0, wanted.as_slice()) {
                        let value = string_of(v0);
                        return Some(
                            Cookie {
                                name: name.to_owned(),
                                value,
                                expires: None,
                                path: None,
                                domain: None,
                                secure: None,
                                http_only: None,
                            },
                        );
                    }
                },
                None => {},
            }
            i += 1;
        }
        None
    }
}

} // verus!
