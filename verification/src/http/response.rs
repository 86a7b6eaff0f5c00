//! Responses and their wire form.

use crate::chars::{chars_of, decimal_string, find_chars, lines_chars, string_of};
use crate::foreign::lowercase;
use crate::http::cookies::Cookie;
use crate::http::headers::Headers;
use crate::http::status::StatusCode;
use crate::string_map::{lookup, upsert, Pairs};
use crate::http::request::head_end_mark;
use crate::text::{
    append_bytes, decimal, ends_with, find, lemma_encode_utf8_concat, lemma_find_from_unique,
    lines, no_break_bytes, no_break_chars, occurs_at, seqs_of, split_once, starts_with,
};
use vstd::prelude::*;
use vstd::slice::slice_subrange;
use vstd::string::{StrSliceExecFns, StringExecFns};
use vstd::utf8::encode_utf8;

verus! {

/// The model of a [`Response`].
pub struct ResponseView {
    pub status: StatusCode,
    pub reason: Seq<char>,
    pub headers: Pairs,
    pub body: Seq<u8>,
}

/// The header fields of every new response.
pub open spec fn default_headers() -> Pairs {
    seq![("server"@, "Kang"@), ("connection"@, "close"@)]
}

/// One line `name: value` for each header field, in order.
pub open spec fn header_lines(h: Pairs) -> Seq<char>
    decreases h.len(),
{
    if h.len() == 0 {
        Seq::empty()
    } else {
        header_lines(h.drop_last()) + h.last().0 + ": "@ + h.last().1 + "\r\n"@
    }
}

/// `h` after the lines of the form `name: value` among `lines` were applied in turn,
/// the name taken in lower case.
pub open spec fn with_header_lines(h: Pairs, lines: Seq<Seq<char>>) -> Pairs
    decreases lines.len(),
{
    if lines.len() == 0 {
        h
    } else {
        let before = with_header_lines(h, lines.drop_last());
        match split_once(lines.last(), ": "@) {
            Some((name, value)) => upsert(before, lowercase(name), value),
            None => before,
        }
    }
}

impl ResponseView {
    /// The status line: `HTTP/1.1`, the code, the reason phrase.
    pub open spec fn status_line(self) -> Seq<char> {
        "HTTP/1.1 "@ + decimal(self.status.code() as nat) + " "@ + self.reason + "\r\n"@
    }

    /// The text before the body: status line, header lines, and an empty line.
    pub open spec fn head(self) -> Seq<char> {
        self.status_line() + header_lines(self.headers) + "\r\n"@
    }

    /// The response as it is sent: the head in UTF-8, then the body.
    pub open spec fn wire(self) -> Seq<u8> {
        encode_utf8(self.head()) + self.body
    }

    /// The response with a new body and the `content-length` field that goes with it.
    pub open spec fn with_body(self, body: Seq<u8>) -> ResponseView {
        ResponseView {
            headers: upsert(self.headers, "content-length"@, decimal(body.len())),
            body: body,
            ..self
        }
    }

    /// The response with one header field set.
    pub open spec fn with_header(self, name: Seq<char>, value: Seq<char>) -> ResponseView {
        ResponseView { headers: upsert(self.headers, name, value), ..self }
    }

    /// A new response with the given status: its reason phrase, the default header
    /// fields, no body.
    pub open spec fn fresh(status: StatusCode) -> ResponseView {
        ResponseView {
            status: status,
            reason: status.reason(),
            headers: default_headers(),
            body: Seq::empty(),
        }
    }

    /// The response that the output of a gateway script stands for. Where the output
    /// has an empty line, the lines before it are header fields and the rest is the
    /// body; otherwise all of it is an HTML body.
    pub open spec fn of_script_output(content: Seq<char>) -> ResponseView {
        match split_once(content, "\r\n\r\n"@) {
            Some((head, body)) => (ResponseView {
                headers: with_header_lines(default_headers(), lines(head)),
                ..ResponseView::fresh(StatusCode::OK)
            }).with_body(encode_utf8(body)),
            None => ResponseView::fresh(StatusCode::OK).with_header(
                "content-type"@,
                "text/html"@,
            ).with_body(encode_utf8(content)),
        }
    }
}

/// A response: status, header fields and body.
#[derive(Debug)]
pub struct Response {
    status_code: StatusCode,
    status_text: String,
    headers: Headers,
    body: Vec<u8>,
}

impl View for Response {
    type V = ResponseView;

    closed spec fn view(&self) -> ResponseView {
        ResponseView {
            status: self.status_code,
            reason: self.status_text@,
            headers: self.headers@,
            body: self.body@,
        }
    }
}

impl Response {
    /// A response with the given status, the header fields `server: Kang` and
    /// `connection: close`, and no body.
    pub fn new(status_code: StatusCode) -> (r: Response)
        ensures
            r@ == ResponseView::fresh(status_code),
    {
        let status_text = status_code.to_text();
        let mut headers = Headers::new();
        headers.set("server", "Kang");
        headers.set("connection", "close");
        proof {
            reveal_strlit("server");
            reveal_strlit("connection");
            let one = upsert(Seq::<(Seq<char>, Seq<char>)>::empty(), "server"@, "Kang"@);
            assert(one =~= seq![("server"@, "Kang"@)]);
            assert(one.drop_first() =~= Seq::<(Seq<char>, Seq<char>)>::empty());
            assert(upsert(one.drop_first(), "connection"@, "close"@) =~= seq![
                ("connection"@, "close"@),
            ]);
            assert("server"@.len() == 6 && "connection"@.len() == 10);
            assert(one[0].0 != "connection"@);
            assert(upsert(one, "connection"@, "close"@) =~= seq![one[0]] + upsert(
                one.drop_first(),
                "connection"@,
                "close"@,
            ));
            assert(upsert(one, "connection"@, "close"@) =~= default_headers());
        }
        Response { status_code, status_text, headers, body: Vec::new() }
    }

    /// The status.
    pub fn status_code(&self) -> (s: &StatusCode)
        ensures
            *s == self@.status,
    {
        &self.status_code
    }

    /// The reason phrase.
    pub fn status_text(&self) -> (s: &str)
        ensures
            s@ == self@.reason,
    {
        self.status_text.as_str()
    }

    /// The header fields.
    pub fn headers(&self) -> (h: &Headers)
        ensures
            h@ == self@.headers,
    {
        &self.headers
    }

    /// The body.
    pub fn body(&self) -> (b: &[u8])
        ensures
            b@ == self@.body,
    {
        self.body.as_slice()
    }

    /// Sets the header field `key`, whatever its case, to `value`.
    pub fn set_header(&mut self, key: &str, value: &str)
        ensures
            final(self)@ == old(self)@.with_header(lowercase(key@), value@),
    {
        self.headers.add(key, value);
    }

    /// Sets the header field with the lower-case name `name` to `value`.
    pub fn set_field(&mut self, name: &str, value: &str)
        ensures
            final(self)@ == old(self)@.with_header(name@, value@),
    {
        self.headers.set(name, value);
    }

    /// Sets the `set-cookie` field to the text of `cookie`.
    pub fn set_cookie(&mut self, cookie: Cookie)
        ensures
            final(self)@ == old(self)@.with_header("set-cookie"@, cookie@.text()),
    {
        let text = cookie.to_string();
        self.headers.set("set-cookie", text.as_str());
    }

    /// Sets the body, and the `content-length` field to its length.
    pub fn set_body(&mut self, body: Vec<u8>)
        ensures
            final(self)@ == old(self)@.with_body(body@),
            lookup(final(self)@.headers, "content-length"@) == Some(
                decimal(final(self)@.body.len()),
            ),
    {
        let length = decimal_string(body.len() as u64);
        proof {
            crate::string_map::lemma_lookup_upsert_same(
                self@.headers,
                "content-length"@,
                decimal(body@.len()),
            );
        }
        self.body = body;
        self.headers.set("content-length", length.as_str());
    }

    /// Sets the body to the UTF-8 bytes of `body`, and the `content-length` field to
    /// their number.
    pub fn set_body_string(&mut self, body: &str)
        ensures
            final(self)@ == old(self)@.with_body(encode_utf8(body@)),
            lookup(final(self)@.headers, "content-length"@) == Some(
                decimal(final(self)@.body.len()),
            ),
    {
        self.set_body(body.as_bytes_vec());
    }

    /// The response as it is sent.
    pub fn to_bytes(&self) -> (bytes: Vec<u8>)
        ensures
            bytes@ == self@.wire(),
    {
        let mut text = String::new();
        text.append("HTTP/1.1 ");
        text.append(decimal_string(self.status_code.as_u16() as u64).as_str());
        text.append(" ");
        text.append(self.status_text.as_str());
        text.append("\r\n");
        proof {
            assert(text@ =~= self@.status_line());
        }
        let fields = self.headers.iter();
        let n = fields.len();
        let mut i: usize = 0;
        proof {
            assert(self@.headers.take(0) =~= Seq::<(Seq<char>, Seq<char>)>::empty());
            assert(text@ =~= self@.status_line() + header_lines(self@.headers.take(0)));
        }
        while i < n
            invariant
                n == fields@.len(),
                n == self@.headers.len(),
                i <= n,
                forall|k: int|
                    0 <= k < n ==> (fields@[k].0@, fields@[k].1@) == #[trigger] self@.headers[k],
                text@ == self@.status_line() + header_lines(self@.headers.take(i as int)),
            decreases n - i,
        {
            text.append(fields[i].0.as_str());
            text.append(": ");
            text.append(fields[i].1.as_str());
            text.append("\r\n");
            proof {
                let upto = self@.headers.take(i + 1);
                assert(upto.drop_last() =~= self@.headers.take(i as int));
                assert(upto.last() == self@.headers[i as int]);
                assert(text@ =~= self@.status_line() + header_lines(upto));
            }
            i += 1;
        }
        text.append("\r\n");
        proof {
            assert(self@.headers.take(n as int) =~= self@.headers);
            assert(text@ =~= self@.head());
        }
        let mut bytes = text.as_str().as_bytes_vec();
        append_bytes(&mut bytes, self.body.as_slice());
        bytes
    }

    /// The response that the output of a gateway script stands for.
    pub fn from_script_output(content: &str) -> (r: Response)
        ensures
            r@ == ResponseView::of_script_output(content@),
    {
        let mut response = Response::new(StatusCode::OK);
        let text = chars_of(content);
        let separator = chars_of("\r\n\r\n");
        let colon_space = chars_of(": ");
        let total = text.len();
        match find_chars(text.as_slice(), separator.as_slice()) {
            Some(at) => {
                let head = slice_subrange(text.as_slice(), 0, at);
                let body = slice_subrange(text.as_slice(), at + separator.len(), total);
                proof {
                    assert(head@ =~= text@.take(at as int));
                    assert(body@ =~= text@.skip(at + separator@.len()));
                }
                let head_lines = lines_chars(head);
                let n = head_lines.len();
                let mut i: usize = 0;
                proof {
                    assert(seqs_of(head_lines@).take(0) =~= Seq::<Seq<char>>::empty());
                }
                while i < n
                    invariant
                        n == head_lines@.len(),
                        i <= n,
                        colon_space@ == ": "@,
                        response@ == (ResponseView {
                            headers: with_header_lines(
                                default_headers(),
                                seqs_of(head_lines@).take(i as int),
                            ),
                            ..ResponseView::fresh(StatusCode::OK)
                        }),
                    decreases n - i,
                {
                    let line = head_lines[i].as_slice();
                    proof {
                        let upto = seqs_of(head_lines@).take(i + 1);
                        assert(upto.drop_last() =~= seqs_of(head_lines@).take(i as int));
                        assert(upto.last() == line@);
                    }
                    let width = line.len();
                    match find_chars(line, colon_space.as_slice()) {
                        Some(c) => {
                            let name = slice_subrange(line, 0, c);
                            let value = slice_subrange(line, c + colon_space.len(), width);
                            proof {
                                assert(name@ =~= line@.take(c as int));
                                assert(value@ =~= line@.skip(c + colon_space@.len()));
                            }
                            response.set_header(string_of(name).as_str(), string_of(value).as_str());
                        },
                        None => {},
                    }
                    i += 1;
                }
                proof {
                    assert(seqs_of(head_lines@).take(n as int) =~= seqs_of(head_lines@));
                }
                response.set_body_string(string_of(body).as_str());
            },
            None => {
                response.set_field("content-type", "text/html");
                response.set_body_string(content);
            },
        }
        response
    }
}

/// The wire form begins with the status line and ends with an empty line followed by
/// the body, unchanged.
pub proof fn lemma_wire_layout(v: ResponseView)
    ensures
        starts_with(v.wire(), encode_utf8(v.status_line())),
        ends_with(v.wire(), encode_utf8("\r\n"@) + v.body),
        ends_with(v.wire(), v.body),
{
    let line = encode_utf8(v.status_line());
    let fields = encode_utf8(header_lines(v.headers));
    let blank = encode_utf8("\r\n"@);
    lemma_encode_utf8_concat(v.status_line() + header_lines(v.headers), "\r\n"@);
    lemma_encode_utf8_concat(v.status_line(), header_lines(v.headers));
    let w = v.wire();
    assert(w =~= line + fields + blank + v.body);
    assert(w.subrange(0, line.len() as int) =~= line);
    assert(w.subrange(w.len() - (blank + v.body).len(), w.len() as int) =~= blank + v.body);
    assert(w.subrange(w.len() - v.body.len(), w.len() as int) =~= v.body);
}

/// In `bytes`, a line feed is never the last byte and never followed by a carriage
/// return.
pub open spec fn no_empty_line_in(bytes: Seq<u8>) -> bool {
    forall|p: int|
        0 <= p < bytes.len() && #[trigger] bytes[p] == 10u8 ==> p + 1 < bytes.len() && bytes[p
            + 1] != 13u8
}

/// `bytes` is a run of lines without an empty one, each ended by CR LF.
pub open spec fn is_block_of_lines(bytes: Seq<u8>) -> bool {
    &&& bytes.len() >= 2
    &&& bytes[bytes.len() - 2] == 13u8
    &&& bytes[bytes.len() - 1] == 10u8
    &&& no_empty_line_in(bytes.take(bytes.len() - 2))
}

/// One more line after a block of lines gives a block of lines.
pub proof fn lemma_block_grows(block: Seq<u8>, line: Seq<u8>)
    requires
        is_block_of_lines(block),
        line.len() > 0,
        no_break_bytes(line),
    ensures
        is_block_of_lines(block + line + seq![13u8, 10u8]),
{
    let longer = block + line + seq![13u8, 10u8];
    let inner = longer.take(longer.len() - 2);
    let old_inner = block.take(block.len() - 2);
    assert forall|p: int| 0 <= p < inner.len() && #[trigger] inner[p] == 10u8 implies p + 1
        < inner.len() && inner[p + 1] != 13u8 by {
        if p < block.len() - 2 {
            assert(inner[p] == old_inner[p]);
            assert(inner[p + 1] == old_inner[p + 1]);
        } else if p == block.len() - 2 {
        } else if p == block.len() - 1 {
            assert(inner[p + 1] == line[0]);
        } else {
            assert(inner[p] == line[p - block.len()]);
        }
    }
}

/// A number is written without line breaks.
pub proof fn lemma_decimal_no_breaks(n: nat)
    ensures
        no_break_chars(decimal(n)),
    decreases n,
{
    if n >= 10 {
        lemma_decimal_no_breaks(n / 10);
    }
}

/// The bytes of CR LF.
pub proof fn lemma_line_break_bytes()
    ensures
        encode_utf8("\r\n"@) == seq![13u8, 10u8],
{
    reveal_strlit("\r\n");
    let s = "\r\n"@;
    assert(s.len() == 2 && s[0] == '\r' && s[1] == '\n');
    assert(vstd::utf8::is_ascii_chars(s));
    vstd::utf8::is_ascii_chars_encode_utf8(s);
    assert(encode_utf8(s) =~= seq![13u8, 10u8]);
}

/// The names and values of the header fields hold no line break.
pub open spec fn fields_on_one_line(h: Pairs) -> bool {
    forall|i: int|
        0 <= i < h.len() ==> no_break_chars((#[trigger] h[i]).0) && no_break_chars(h[i].1)
}

/// The status line and the header lines are a block of lines, where the reason
/// phrase and the header fields hold no line break.
pub proof fn lemma_head_is_block(v: ResponseView, h: Pairs)
    requires
        no_break_chars(v.reason),
        fields_on_one_line(h),
    ensures
        is_block_of_lines(encode_utf8(v.status_line() + header_lines(h))),
    decreases h.len(),
{
    lemma_line_break_bytes();
    let crlf = "\r\n"@;
    if h.len() == 0 {
        reveal_strlit("HTTP/1.1 ");
        reveal_strlit(" ");
        let first = "HTTP/1.1 "@ + decimal(v.status.code() as nat) + " "@ + v.reason;
        lemma_decimal_no_breaks(v.status.code() as nat);
        assert(no_break_chars(first)) by {
            let a = "HTTP/1.1 "@;
            let b = decimal(v.status.code() as nat);
            assert forall|i: int| 0 <= i < first.len() implies #[trigger] first[i] != '\r'
                && first[i] != '\n' by {
                if i < a.len() {
                    assert(first[i] == a[i]);
                } else if i < a.len() + b.len() {
                    assert(first[i] == b[i - a.len()]);
                } else if i == a.len() + b.len() {
                    assert(first[i] == ' ');
                } else {
                    assert(first[i] == v.reason[i - a.len() - b.len() - 1]);
                }
            }
        }
        crate::text::lemma_encode_no_breaks(first);
        lemma_encode_utf8_concat(first, crlf);
        assert(v.status_line() + header_lines(h) =~= first + crlf);
        let bytes = encode_utf8(first) + seq![13u8, 10u8];
        assert(bytes.take(bytes.len() - 2) =~= encode_utf8(first));
    } else {
        let before = h.drop_last();
        assert forall|i: int| 0 <= i < before.len() implies no_break_chars(
            (#[trigger] before[i]).0,
        ) && no_break_chars(before[i].1) by {
            assert(before[i] == h[i]);
        }
        lemma_head_is_block(v, before);
        reveal_strlit(": ");
        let separator = ": "@;
        let line = h.last().0 + separator + h.last().1;
        assert(no_break_chars(line)) by {
            let a = h.last().0;
            assert forall|i: int| 0 <= i < line.len() implies #[trigger] line[i] != '\r'
                && line[i] != '\n' by {
                if i < a.len() {
                    assert(line[i] == a[i]);
                } else if i < a.len() + 2 {
                    assert(line[i] == separator[i - a.len()]);
                } else {
                    assert(line[i] == h.last().1[i - a.len() - 2]);
                }
            }
        }
        crate::text::lemma_encode_no_breaks(line);
        let earlier = v.status_line() + header_lines(before);
        assert(v.status_line() + header_lines(h) =~= earlier + line + crlf);
        lemma_encode_utf8_concat(earlier + line, crlf);
        lemma_encode_utf8_concat(earlier, line);
        lemma_block_grows(encode_utf8(earlier), encode_utf8(line));
    }
}

/// The first empty line of a response on the wire is the one before its body: what
/// stands before it is the status line and one line for each header field, and
/// what follows it is the body, whatever bytes the body holds. This needs that the
/// reason phrase and the names and values of the header fields hold no line break.
pub proof fn lemma_first_empty_line(v: ResponseView)
    requires
        no_break_chars(v.reason),
        fields_on_one_line(v.headers),
    ensures
        encode_utf8(v.head()).len() >= 4,
        find(v.wire(), head_end_mark()) == Some(encode_utf8(v.head()).len() - 4),
        v.wire().skip(encode_utf8(v.head()).len() as int) == v.body,
        v.wire().take(encode_utf8(v.head()).len() - 2) == encode_utf8(
            v.status_line() + header_lines(v.headers),
        ),
{
    lemma_head_is_block(v, v.headers);
    lemma_line_break_bytes();
    let lines = v.status_line() + header_lines(v.headers);
    let block = encode_utf8(lines);
    lemma_encode_utf8_concat(lines, "\r\n"@);
    let wire = v.wire();
    assert(wire =~= block + seq![13u8, 10u8] + v.body);
    let at = block.len() - 2;
    let mark = head_end_mark();
    assert(mark.len() == 4);
    assert(wire.subrange(at, at + 4) =~= mark);
    let inner = block.take(at);
    assert forall|j: int| 0 <= j < at implies !occurs_at(wire, mark, j) by {
        if occurs_at(wire, mark, j) {
            let window = wire.subrange(j, j + 4);
            assert(window[1] == 10u8 && window[2] == 13u8);
            assert(wire[j + 1] == 10u8 && wire[j + 2] == 13u8);
            if j + 1 < at {
                assert(inner[j + 1] == wire[j + 1]);
                assert(inner[j + 2] == wire[j + 2]);
                assert(false);
            } else {
                assert(wire[j + 1] == block[at]);
                assert(false);
            }
        }
    }
    lemma_find_from_unique(wire, mark, 0, at);
    assert(wire.skip(block.len() as int + 2) =~= v.body);
    assert(wire.take(block.len() as int) =~= block);
}

/// A response whose body was the last thing set declares that body's length.
pub proof fn lemma_content_length(v: ResponseView, body: Seq<u8>)
    ensures
        lookup(v.with_body(body).headers, "content-length"@) == Some(
            decimal(v.with_body(body).body.len()),
        ),
{
    crate::string_map::lemma_lookup_upsert_same(v.headers, "content-length"@, decimal(body.len()));
}

} // verus!
