//! The textual form of a request, and the proof that the parser reads it back.

use crate::foreign::{lowercase, percent_decoded};
use crate::http::headers::{header_of_line, headers_of_lines};
use crate::http::methods::method_of;
use crate::http::request::{
    head_end_mark, parsed, target_parts, wants_chunked, wants_keep_alive, ParseError, RequestView,
};
use crate::text::{
    find, is_whitespace, lemma_encode_utf8_concat, lemma_find_from_none, lemma_find_from_unique,
    lemma_strip_leading_len, occurs_at, split, split_whitespace, strip_leading, trim, word_len,
    CharClass,
};
use vstd::prelude::*;
use vstd::utf8::{encode_utf8, is_ascii_chars};

verus! {

/// A non-empty ASCII text without carriage return or line feed.
pub open spec fn is_line(s: Seq<char>) -> bool {
    &&& s.len() > 0
    &&& is_ascii_chars(s)
    &&& forall|i: int| 0 <= i < s.len() ==> #[trigger] s[i] != '\r' && s[i] != '\n'
}

/// A non-empty ASCII text without whitespace.
pub open spec fn is_word(s: Seq<char>) -> bool {
    &&& s.len() > 0
    &&& is_ascii_chars(s)
    &&& forall|i: int| 0 <= i < s.len() ==> !is_whitespace(#[trigger] s[i])
}

/// Every text of `lines` is a line.
pub open spec fn all_lines(lines: Seq<Seq<char>>) -> bool {
    forall|i: int| 0 <= i < lines.len() ==> is_line(#[trigger] lines[i])
}

/// The lines, each but the last followed by CR LF.
pub open spec fn joined(lines: Seq<Seq<char>>) -> Seq<char>
    decreases lines.len(),
{
    if lines.len() == 0 {
        Seq::empty()
    } else if lines.len() == 1 {
        lines[0]
    } else {
        lines[0] + "\r\n"@ + joined(lines.drop_first())
    }
}

/// The first line of a request.
pub open spec fn request_line(method: Seq<char>, target: Seq<char>, version: Seq<char>) -> Seq<
    char,
> {
    method + " "@ + target + " "@ + version
}

/// A request as it is sent: the request line, the header lines, an empty line, and
/// the body.
pub open spec fn request_bytes(
    method: Seq<char>,
    target: Seq<char>,
    version: Seq<char>,
    fields: Seq<Seq<char>>,
    body: Seq<u8>,
) -> Seq<u8> {
    encode_utf8(joined(seq![request_line(method, target, version)] + fields) + "\r\n\r\n"@) + body
}

/// In `s`, a line feed is never the last character and never followed by a carriage
/// return.
pub open spec fn no_empty_line(s: Seq<char>) -> bool {
    forall|p: int|
        0 <= p < s.len() && #[trigger] s[p] == '\n' ==> p + 1 < s.len() && s[p + 1] != '\r'
}

/// A word followed by whitespace has the length of the word as its word length.
pub proof fn lemma_word_len(w: Seq<char>, rest: Seq<char>)
    requires
        forall|i: int| 0 <= i < w.len() ==> !is_whitespace(#[trigger] w[i]),
        rest.len() == 0 || is_whitespace(rest[0]),
    ensures
        word_len(w + rest) == w.len(),
    decreases w.len(),
{
    if w.len() == 0 {
        assert(w + rest =~= rest);
    } else {
        assert((w + rest)[0] == w[0]);
        assert((w + rest).drop_first() =~= w.drop_first() + rest);
        assert forall|i: int| 0 <= i < w.drop_first().len() implies !is_whitespace(
            #[trigger] w.drop_first()[i],
        ) by {
            assert(w.drop_first()[i] == w[i + 1]);
        }
        lemma_word_len(w.drop_first(), rest);
    }
}

/// Splitting at whitespace takes a leading word off a text.
pub proof fn lemma_first_word(w: Seq<char>, rest: Seq<char>)
    requires
        is_word(w),
        rest.len() == 0 || is_whitespace(rest[0]),
    ensures
        split_whitespace(w + rest) == seq![w] + split_whitespace(rest),
{
    let s = w + rest;
    assert(s[0] == w[0]);
    assert(strip_leading(s, CharClass::Whitespace) == s);
    lemma_word_len(w, rest);
    assert(s.take(w.len() as int) =~= w);
    assert(s.skip(w.len() as int) =~= rest);
}

/// A request line splits into its three words.
pub proof fn lemma_request_line_words(method: Seq<char>, target: Seq<char>, version: Seq<char>)
    requires
        is_word(method),
        is_word(target),
        is_word(version),
    ensures
        split_whitespace(request_line(method, target, version)) == seq![method, target, version],
{
    reveal_strlit(" ");
    let space = " "@;
    assert(space.len() == 1 && space[0] == ' ');
    let none = Seq::<char>::empty();
    lemma_first_word(version, none);
    assert(version + none =~= version);
    assert(split_whitespace(none) =~= Seq::<Seq<char>>::empty()) by {
        assert(strip_leading(none, CharClass::Whitespace) == none);
    }
    assert(split_whitespace(version) =~= seq![version]);
    let after_target = space + version;
    assert(split_whitespace(after_target) == split_whitespace(version)) by {
        assert(after_target.drop_first() =~= version);
        assert(strip_leading(after_target, CharClass::Whitespace) == strip_leading(
            version,
            CharClass::Whitespace,
        ));
        lemma_strip_leading_len(version, CharClass::Whitespace);
    }
    lemma_first_word(target, after_target);
    let from_target = target + after_target;
    assert(split_whitespace(from_target) =~= seq![target, version]);
    let after_method = space + from_target;
    assert(split_whitespace(after_method) == split_whitespace(from_target)) by {
        assert(after_method.drop_first() =~= from_target);
        assert(strip_leading(after_method, CharClass::Whitespace) == strip_leading(
            from_target,
            CharClass::Whitespace,
        ));
        lemma_strip_leading_len(from_target, CharClass::Whitespace);
    }
    lemma_first_word(method, after_method);
    assert(method + after_method =~= request_line(method, target, version));
    assert(seq![method] + seq![target, version] =~= seq![method, target, version]);
}

/// A request line is a line.
pub proof fn lemma_request_line_is_line(method: Seq<char>, target: Seq<char>, version: Seq<char>)
    requires
        is_word(method),
        is_word(target),
        is_word(version),
    ensures
        is_line(request_line(method, target, version)),
{
    reveal_strlit(" ");
    let space = " "@;
    assert(space.len() == 1 && space[0] == ' ');
    let line = request_line(method, target, version);
    assert forall|i: int| 0 <= i < line.len() implies '\0' <= #[trigger] line[i] <= '\u{7f}'
        && line[i] != '\r' && line[i] != '\n' by {
        let a = method.len() as int;
        let b = a + 1 + target.len();
        if i < a {
            assert(line[i] == method[i]);
        } else if i == a {
        } else if i < b {
            assert(line[i] == target[i - a - 1]);
        } else if i == b {
        } else {
            assert(line[i] == version[i - b - 1]);
        }
    }
}

/// Lines that are joined by CR LF are found again by splitting at CR LF, and the
/// joined text is ASCII and holds no empty line.
pub proof fn lemma_joined(lines: Seq<Seq<char>>)
    requires
        lines.len() > 0,
        all_lines(lines),
    ensures
        split(joined(lines), "\r\n"@) == lines,
        is_ascii_chars(joined(lines)),
        no_empty_line(joined(lines)),
        joined(lines).len() > 0,
    decreases lines.len(),
{
    reveal_strlit("\r\n");
    let crlf = "\r\n"@;
    assert(crlf.len() == 2 && crlf[0] == '\r' && crlf[1] == '\n');
    let first = lines[0];
    assert(is_line(first));
    if lines.len() == 1 {
        let text = joined(lines);
        assert forall|j: int| 0 <= j implies !occurs_at(text, crlf, j) by {
            if j + 2 <= text.len() {
                assert(text.subrange(j, j + 2)[0] == text[j]);
            }
        }
        lemma_find_from_none(text, crlf, 0);
        assert(seq![text] =~= lines);
    } else {
        let rest = lines.drop_first();
        assert forall|i: int| 0 <= i < rest.len() implies is_line(#[trigger] rest[i]) by {
            assert(rest[i] == lines[i + 1]);
        }
        lemma_joined(rest);
        let tail = joined(rest);
        let text = first + crlf + tail;
        let at = first.len() as int;
        assert(text.subrange(at, at + 2) =~= crlf);
        assert forall|j: int| 0 <= j < at implies !occurs_at(text, crlf, j) by {
            assert(text.subrange(j, j + 2)[0] == first[j]);
        }
        lemma_find_from_unique(text, crlf, 0, at);
        assert(text.take(at) =~= first);
        assert(text.skip(at + 2) =~= tail);
        assert(seq![first] + rest =~= lines);
        assert forall|i: int| 0 <= i < text.len() implies '\0' <= #[trigger] text[i] <= '\u{7f}' by {
            if i < at {
                assert(text[i] == first[i]);
            } else if i >= at + 2 {
                assert(text[i] == tail[i - at - 2]);
            }
        }
        assert forall|p: int| 0 <= p < text.len() && #[trigger] text[p] == '\n' implies p + 1
            < text.len() && text[p + 1] != '\r' by {
            if p < at {
                assert(text[p] == first[p]);
            } else if p == at + 1 {
                assert(text[p + 1] == tail[0]);
                let head = rest[0];
                assert(is_line(head));
                assert(tail[0] == head[0]) by {
                    if rest.len() > 1 {
                        assert(tail =~= head + crlf + joined(rest.drop_first()));
                    }
                }
            } else if p > at + 1 {
                assert(text[p] == tail[p - at - 2]);
                assert(text[p + 1] == tail[p + 1 - at - 2]);
            }
        }
    }
}

/// The bytes of an ASCII text with an empty line after it hold the end of the head
/// right after the text, where the text itself holds no empty line.
pub proof fn lemma_head_end(head: Seq<char>, body: Seq<u8>)
    requires
        is_ascii_chars(head),
        no_empty_line(head),
    ensures
        find(encode_utf8(head + "\r\n\r\n"@) + body, head_end_mark()) == Some(head.len() as int),
        (encode_utf8(head + "\r\n\r\n"@) + body).take(head.len() as int) == encode_utf8(head),
        (encode_utf8(head + "\r\n\r\n"@) + body).skip(head.len() as int + 4) == body,
{
    reveal_strlit("\r\n\r\n");
    let end = "\r\n\r\n"@;
    assert(end.len() == 4 && end[0] == '\r' && end[1] == '\n' && end[2] == '\r' && end[3] == '\n');
    let text = head + end;
    let bytes = encode_utf8(text) + body;
    let mark = head_end_mark();
    let at = head.len() as int;
    assert(is_ascii_chars(text)) by {
        assert forall|i: int| 0 <= i < text.len() implies '\0' <= #[trigger] text[i] <= '\u{7f}' by {
            if i < at {
                assert(text[i] == head[i]);
            } else {
                assert(text[i] == end[i - at]);
            }
        }
    }
    vstd::utf8::is_ascii_chars_encode_utf8(text);
    vstd::utf8::is_ascii_chars_encode_utf8(head);
    lemma_encode_utf8_concat(head, end);
    let encoded = encode_utf8(text);
    assert(mark.len() == 4);
    assert(bytes.subrange(at, at + 4) =~= mark) by {
        assert forall|k: int| 0 <= k < 4 implies bytes.subrange(at, at + 4)[k] == mark[k] by {
            assert(bytes[at + k] == encoded[at + k]);
            assert(encoded[at + k] == text[at + k] as u8);
            assert(text[at + k] == end[k]);
        }
    }
    assert forall|j: int| 0 <= j < at implies !occurs_at(bytes, mark, j) by {
        if occurs_at(bytes, mark, j) {
            let window = bytes.subrange(j, j + 4);
            assert(window[1] == 10u8 && window[2] == 13u8);
            assert(bytes[j + 1] == 10u8 && bytes[j + 2] == 13u8);
            assert(bytes[j + 1] == text[j + 1] as u8);
            assert(bytes[j + 2] == text[j + 2] as u8);
            if j + 1 < at {
                assert(text[j + 1] == head[j + 1]);
                assert(head[j + 1] == '\n');
                assert(j + 2 < at && head[j + 2] != '\r');
                assert(text[j + 2] == head[j + 2]);
                assert(false);
            } else {
                assert(text[j + 1] == end[0]);
                assert(false);
            }
        }
    }
    lemma_find_from_unique(bytes, mark, 0, at);
    assert(bytes.take(at) =~= encode_utf8(head));
    assert(bytes.skip(at + 4) =~= body);
}

/// A header line `name: value` declares the field `name`, in lower case and trimmed,
/// with the trimmed value, provided that the name holds no colon.
pub proof fn lemma_field_line(name: Seq<char>, value: Seq<char>)
    requires
        !name.contains(':'),
    ensures
        header_of_line(name + ": "@ + value) == Some((lowercase(trim(name)), trim(value))),
{
    reveal_strlit(": ");
    let separator = ": "@;
    assert(separator.len() == 2 && separator[0] == ':' && separator[1] == ' ');
    let line = name + separator + value;
    let colon = seq![':'];
    let at = name.len() as int;
    assert(line.subrange(at, at + 1) =~= colon);
    assert forall|j: int| 0 <= j < at implies !occurs_at(line, colon, j) by {
        assert(line.subrange(j, j + 1)[0] == name[j]);
        assert(name.contains(name[j]));
    }
    lemma_find_from_unique(line, colon, 0, at);
    assert(line.take(at) =~= name);
    let after = line.skip(at + 1);
    assert(after[0] == ' ');
    assert(after.drop_first() =~= value);
    assert(strip_leading(after, CharClass::Whitespace) == strip_leading(
        value,
        CharClass::Whitespace,
    ));
}

/// A well-formed request that is there as a whole is read as what it says: the
/// method, the version and the header fields are those written, the path and the
/// query are those of the decoded target, and the body is the bytes after the
/// empty line.
pub proof fn lemma_well_formed_request_is_read(
    method: Seq<char>,
    target: Seq<char>,
    version: Seq<char>,
    fields: Seq<Seq<char>>,
    body: Seq<u8>,
)
    requires
        is_word(method),
        is_word(target),
        is_word(version),
        all_lines(fields),
    ensures
        parsed(request_bytes(method, target, version, fields, body)) == (match percent_decoded(
            target,
        ) {
            Some(decoded) => Ok(
                RequestView {
                    method: method_of(method),
                    path: target_parts(decoded).0,
                    query_params: target_parts(decoded).1,
                    version: version,
                    headers: headers_of_lines(fields),
                    body: body,
                    chunked: wants_chunked(headers_of_lines(fields)),
                    keep_alive: wants_keep_alive(headers_of_lines(fields), version),
                },
            ),
            None => Err(ParseError::InvalidTarget),
        }),
{
    let first = request_line(method, target, version);
    let lines = seq![first] + fields;
    lemma_request_line_is_line(method, target, version);
    assert forall|i: int| 0 <= i < lines.len() implies is_line(#[trigger] lines[i]) by {
        if i > 0 {
            assert(lines[i] == fields[i - 1]);
        }
    }
    lemma_joined(lines);
    let head = joined(lines);
    lemma_head_end(head, body);
    vstd::utf8::encode_utf8_valid_utf8(head);
    vstd::utf8::encode_utf8_decode_utf8(head);
    lemma_request_line_words(method, target, version);
    assert(lines[0] == first);
    assert(lines.skip(1) =~= fields);
    let words = split_whitespace(first);
    assert(words.len() == 3 && words[0] == method && words[1] == target && words[2] == version);
}

} // verus!
