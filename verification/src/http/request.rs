//! Requests, and the parser that reads one from the bytes of a connection.

use crate::chars::{chars_of, find_chars, split_chars, split_whitespace_chars, string_of};
use crate::foreign::{lowercase, percent_decode, percent_decoded, to_lowercase, utf8_text};
use crate::http::headers::{boundary_of, headers_of_lines, Headers};
use crate::http::methods::{method_of, Method, MethodView};
use crate::http::upload::{decoded, MultipartFormData, MultipartView, UploadError};
use crate::string_map::{lookup, upsert, Pairs, StringMap};
use crate::text::{
    append_bytes, contains, find, find_bytes_from, seqs_of, split, split_once, split_whitespace,
};
use vstd::prelude::*;
use vstd::slice::{slice_subrange, slice_to_vec};
use vstd::utf8::{decode_utf8, valid_utf8};

verus! {

/// The four bytes that end the head of a message: CR LF CR LF.
pub open spec fn head_end_mark() -> Seq<u8> {
    seq![13u8, 10u8, 13u8, 10u8]
}

/// The percent-decoded form of `s`, or `s` itself where it cannot be decoded.
pub open spec fn decoded_or_raw(s: Seq<char>) -> Seq<char> {
    match percent_decoded(s) {
        Some(d) => d,
        None => s,
    }
}

/// The parameters that the `key=value` items among `items` declare, keys and values
/// percent-decoded, later items overriding earlier ones of the same key.
pub open spec fn query_pairs(items: Seq<Seq<char>>) -> Pairs
    decreases items.len(),
{
    if items.len() == 0 {
        Seq::empty()
    } else {
        let before = query_pairs(items.drop_last());
        match split_once(items.last(), seq!['=']) {
            Some((key, value)) => upsert(before, decoded_or_raw(key), decoded_or_raw(value)),
            None => before,
        }
    }
}

/// The path of a request target and the parameters of its query: the target is cut
/// at its first `?`, and the query at each `&`.
pub open spec fn target_parts(target: Seq<char>) -> (Seq<char>, Pairs) {
    match split_once(target, seq!['?']) {
        Some((path, query)) => (path, query_pairs(split(query, seq!['&']))),
        None => (target, Seq::empty()),
    }
}

/// Whether the header fields ask for chunked transfer encoding.
pub open spec fn wants_chunked(headers: Pairs) -> bool {
    match lookup(headers, "transfer-encoding"@) {
        Some(v) => contains(lowercase(v), "chunked"@),
        None => false,
    }
}

/// Whether the connection is to be kept alive: as the `connection` field says, and
/// without one, whether the version is 1.1.
pub open spec fn wants_keep_alive(headers: Pairs, version: Seq<char>) -> bool {
    match lookup(headers, "connection"@) {
        Some(v) => contains(lowercase(v), "keep-alive"@),
        None => contains(version, "1.1"@),
    }
}

/// The model of a [`Request`].
pub struct RequestView {
    pub method: MethodView,
    pub path: Seq<char>,
    pub query_params: Pairs,
    pub version: Seq<char>,
    pub headers: Pairs,
    pub body: Seq<u8>,
    pub chunked: bool,
    pub keep_alive: bool,
}

impl RequestView {
    /// A request with a method, a target and a version, and nothing else.
    pub open spec fn fresh(method: MethodView, target: Seq<char>, version: Seq<char>) -> RequestView {
        RequestView {
            method: method,
            path: target_parts(target).0,
            query_params: target_parts(target).1,
            version: version,
            headers: Seq::empty(),
            body: Seq::empty(),
            chunked: false,
            keep_alive: false,
        }
    }
}

/// Why a byte string is not a request.
#[derive(Debug, Clone, Copy, PartialEq, Eq, Structural)]
pub enum ParseError {
    /// The empty line that ends the head has not arrived yet.
    Incomplete,
    /// The head is not UTF-8.
    InvalidUtf8,
    /// The first line is not made of a method, a target and a version.
    InvalidRequestLine,
    /// The percent-decoded target is not UTF-8.
    InvalidTarget,
}

/// The request that a byte string holds, or why it holds none.
///
/// The head ends at the first CR LF CR LF. It must be UTF-8, and its first line three
/// words: method, target, version. The target is percent-decoded and split into path
/// and query. The other lines are header fields; the bytes after the head are the
/// body.
pub open spec fn parsed(raw: Seq<u8>) -> Result<RequestView, ParseError> {
    match find(raw, head_end_mark()) {
        None => Err(ParseError::Incomplete),
        Some(end) => {
            let head = raw.take(end);
            if !valid_utf8(head) {
                Err(ParseError::InvalidUtf8)
            } else {
                let lines = split(decode_utf8(head), "\r\n"@);
                let words = split_whitespace(lines[0]);
                if words.len() != 3 {
                    Err(ParseError::InvalidRequestLine)
                } else {
                    match percent_decoded(words[1]) {
                        None => Err(ParseError::InvalidTarget),
                        Some(target) => {
                            let headers = headers_of_lines(lines.skip(1));
                            Ok(
                                RequestView {
                                    headers: headers,
                                    body: raw.skip(end + 4),
                                    chunked: wants_chunked(headers),
                                    keep_alive: wants_keep_alive(headers, words[2]),
                                    ..RequestView::fresh(method_of(words[0]), target, words[2])
                                },
                            )
                        },
                    }
                }
            }
        },
    }
}

/// Position of the CR LF CR LF that ends the head, if it is there.
pub fn find_headers_end(bytes: &[u8]) -> (r: Option<usize>)
    ensures
        match r {
            Some(i) => find(bytes@, head_end_mark()) == Some(i as int) && i + 4 <= bytes@.len(),
            None => find(bytes@, head_end_mark()) is None,
        },
{
    let mark: [u8; 4] = [13, 10, 13, 10];
    proof {
        assert(mark@ =~= head_end_mark());
    }
    let r = find_bytes_from(bytes, mark.as_slice(), 0);
    proof {
        crate::text::lemma_find_from(bytes@, head_end_mark(), 0);
    }
    r
}

/// A request.
#[derive(Debug, Clone)]
pub struct Request {
    method: Method,
    path: String,
    query_params: StringMap,
    version: String,
    headers: Headers,
    body: Vec<u8>,
    chunked: bool,
    keep_alive: bool,
}

impl View for Request {
    type V = RequestView;

    closed spec fn view(&self) -> RequestView {
        RequestView {
            method: self.method@,
            path: self.path@,
            query_params: self.query_params@,
            version: self.version@,
            headers: self.headers@,
            body: self.body@,
            chunked: self.chunked,
            keep_alive: self.keep_alive,
        }
    }
}

impl Request {
    fn decode_or_keep(s: &[char]) -> (r: String)
        ensures
            r@ == decoded_or_raw(s@),
    {
        let raw = string_of(s);
        match percent_decode(raw.as_str()) {
            Some(d) => d,
            None => raw,
        }
    }

    fn parse_query_params(target: &str) -> (r: (String, StringMap))
        ensures
            r.0@ == target_parts(target@).0,
            r.1@ == target_parts(target@).1,
    {
        let mut params = StringMap::new();
        let t = chars_of(target);
        let total = t.len();
        let question: [char; 1] = ['?'];
        let ampersand: [char; 1] = ['&'];
        let equals: [char; 1] = ['='];
        proof {
            assert(question@ =~= seq!['?']);
            assert(ampersand@ =~= seq!['&']);
            assert(equals@ =~= seq!['=']);
        }
        match find_chars(t.as_slice(), question.as_slice()) {
            Some(q) => {
                let path = slice_subrange(t.as_slice(), 0, q);
                let query = slice_subrange(t.as_slice(), q + 1, total);
                proof {
                    assert(path@ =~= t@.take(q as int));
                    assert(query@ =~= t@.skip(q + 1));
                }
                let items = split_chars(query, ampersand.as_slice());
                let n = items.len();
                let mut i: usize = 0;
                proof {
                    assert(seqs_of(items@).take(0) =~= Seq::<Seq<char>>::empty());
                }
                while i < n
                    invariant
                        n == items@.len(),
                        i <= n,
                        equals@ == seq!['='],
                        params@ == query_pairs(seqs_of(items@).take(i as int)),
                    decreases n - i,
                {
                    let item = items[i].as_slice();
                    let width = item.len();
                    proof {
                        let upto = seqs_of(items@).take(i + 1);
                        assert(upto.drop_last() =~= seqs_of(items@).take(i as int));
                        assert(upto.last() == item@);
                    }
                    match find_chars(item, equals.as_slice()) {
                        Some(e) => {
                            let key = slice_subrange(item, 0, e);
                            let value = slice_subrange(item, e + 1, width);
                            proof {
                                assert(key@ =~= item@.take(e as int));
                                assert(value@ =~= item@.skip(e + 1));
                            }
                            params.insert(Self::decode_or_keep(key), Self::decode_or_keep(value));
                        },
                        None => {},
                    }
                    i += 1;
                }
                proof {
                    assert(seqs_of(items@).take(n as int) =~= seqs_of(items@));
                }
                (string_of(path), params)
            },
            None => (target.to_owned(), params),
        }
    }

    /// The value of the query parameter `key`.
    pub fn query_param(&self, key: &str) -> (r: Option<&String>)
        ensures
            match r {
                Some(v) => lookup(self@.query_params, key@) == Some(v@),
                None => lookup(self@.query_params, key@) is None,
            },
    {
        self.query_params.get(key)
    }

    /// The query parameters.
    pub fn query_params(&self) -> (r: &StringMap)
        ensures
            r@ == self@.query_params,
    {
        &self.query_params
    }

    /// Whether the request asked for chunked transfer encoding.
    pub fn is_chunked(&self) -> (r: bool)
        ensures
            r == self@.chunked,
    {
        self.chunked
    }

    /// Whether the request asked to keep the connection alive.
    pub fn is_keep_alive(&self) -> (r: bool)
        ensures
            r == self@.keep_alive,
    {
        self.keep_alive
    }

    /// A request without header fields or body. The target is split at its first `?`
    /// into the path and the query parameters.
    pub fn new(method: Method, path: &str, version: &str) -> (r: Request)
        ensures
            r@ == RequestView::fresh(method@, path@, version@),
    {
        let (path, query_params) = Self::parse_query_params(path);
        Request {
            method,
            path,
            query_params,
            version: version.to_owned(),
            headers: Headers::new(),
            body: Vec::new(),
            chunked: false,
            keep_alive: false,
        }
    }

    /// The method.
    pub fn method(&self) -> (m: &Method)
        ensures
            m@ == self@.method,
    {
        &self.method
    }

    /// The path, without the query.
    pub fn path(&self) -> (p: &str)
        ensures
            p@ == self@.path,
    {
        self.path.as_str()
    }

    /// The protocol version.
    pub fn version(&self) -> (v: &str)
        ensures
            v@ == self@.version,
    {
        self.version.as_str()
    }

    /// The header fields.
    pub fn headers(&self) -> (h: &Headers)
        ensures
            h@ == self@.headers,
    {
        &self.headers
    }

    /// The body.
    pub fn body(&self) -> (b: &[u8])
        ensures
            b@ == self@.body,
    {
        self.body.as_slice()
    }

    /// Replaces the header fields.
    pub fn set_headers(&mut self, headers: Headers)
        ensures
            final(self)@ == (RequestView { headers: headers@, ..old(self)@ }),
    {
        self.headers = headers;
    }

    /// Replaces the body.
    pub fn set_body(&mut self, body: Vec<u8>)
        ensures
            final(self)@ == (RequestView { body: body@, ..old(self)@ }),
    {
        self.body = body;
    }

    /// Appends `data` to the body.
    pub fn append_body(&mut self, data: &[u8])
        ensures
            final(self)@ == (RequestView { body: old(self)@.body + data@, ..old(self)@ }),
    {
        append_bytes(&mut self.body, data);
    }

    /// Whether a transfer encoding, given in lower case, names `chunked`.
    pub fn names_chunked(lower: &str) -> (r: bool)
        ensures
            r == contains(lower@, "chunked"@),
    {
        find_chars(chars_of(lower).as_slice(), chars_of("chunked").as_slice()).is_some()
    }

    /// Whether a `connection` field, given in lower case, names `keep-alive`.
    pub fn names_keep_alive(lower: &str) -> (r: bool)
        ensures
            r == contains(lower@, "keep-alive"@),
    {
        find_chars(chars_of(lower).as_slice(), chars_of("keep-alive").as_slice()).is_some()
    }

    /// Whether a protocol version names `1.1`.
    pub fn is_version_1_1(version: &str) -> (r: bool)
        ensures
            r == contains(version@, "1.1"@),
    {
        find_chars(chars_of(version).as_slice(), chars_of("1.1").as_slice()).is_some()
    }

    /// Reads a request from the bytes received so far.
    pub fn parse(raw_request: &[u8]) -> (r: Result<Request, ParseError>)
        ensures
            match r {
                Ok(request) => parsed(raw_request@) == Ok::<RequestView, ParseError>(request@),
                Err(e) => parsed(raw_request@) == Err::<RequestView, ParseError>(e),
            },
    {
        let total = raw_request.len();
        let end = match find_headers_end(raw_request) {
            Some(end) => end,
            None => {
                return Err(ParseError::Incomplete);
            },
        };
        let head = slice_subrange(raw_request, 0, end);
        proof {
            assert(head@ =~= raw_request@.take(end as int));
        }
        let text = match utf8_text(head) {
            Some(s) => chars_of(s),
            None => {
                return Err(ParseError::InvalidUtf8);
            },
        };
        let crlf = chars_of("\r\n");
        let lines = split_chars(text.as_slice(), crlf.as_slice());
        let count = lines.len();
        let words = split_whitespace_chars(lines[0].as_slice());
        proof {
            assert(seqs_of(lines@)[0] == lines@[0]@);
        }
        if words.len() != 3 {
            return Err(ParseError::InvalidRequestLine);
        }
        proof {
            assert(seqs_of(words@)[0] == words@[0]@);
            assert(seqs_of(words@)[1] == words@[1]@);
            assert(seqs_of(words@)[2] == words@[2]@);
        }
        let method = Method::from_str(string_of(words[0].as_slice()).as_str());
        let target = match percent_decode(string_of(words[1].as_slice()).as_str()) {
            Some(t) => t,
            None => {
                return Err(ParseError::InvalidTarget);
            },
        };
        let version = string_of(words[2].as_slice());
        let mut request = Request::new(method, target.as_str(), version.as_str());
        let rest = slice_subrange(lines.as_slice(), 1, count);
        proof {
            assert(seqs_of(rest@) =~= seqs_of(lines@).skip(1));
        }
        let headers = Headers::parse_lines(rest);
        request.chunked = match headers.get_exact("transfer-encoding") {
            Some(v) => Self::names_chunked(to_lowercase(v.as_str()).as_str()),
            None => false,
        };
        request.keep_alive = match headers.get_exact("connection") {
            Some(v) => Self::names_keep_alive(to_lowercase(v.as_str()).as_str()),
            None => Self::is_version_1_1(version.as_str()),
        };
        request.headers = headers;
        let body = slice_subrange(raw_request, end + 4, total);
        proof {
            assert(body@ =~= raw_request@.skip(end + 4));
        }
        request.body = slice_to_vec(body);
        Ok(request)
    }

    /// Whether the request uploads files: a `POST` with a body and the content type
    /// `multipart/form-data`.
    pub fn has_file_upload(&self) -> (r: bool)
        ensures
            r == self@.is_upload(),
    {
        if !self.headers.is_multipart_form_data() {
            return false;
        }
        if self.body.len() == 0 {
            return false;
        }
        match self.method {
            Method::POST => true,
            _ => false,
        }
    }

    /// The fields and files that the request uploads.
    pub fn parse_multipart_form_data(&self) -> (r: Result<MultipartFormData, UploadError>)
        ensures
            match r {
                Ok(data) => self@.upload() == Ok::<MultipartView, UploadError>(data@),
                Err(e) => self@.upload() == Err::<MultipartView, UploadError>(e),
            },
    {
        if !self.has_file_upload() {
            return Err(UploadError::NotAnUpload);
        }
        let boundary = match self.headers.get_boundary() {
            Some(boundary) => boundary,
            None => {
                return Err(UploadError::MissingBoundary);
            },
        };
        MultipartFormData::parse(self.body.as_slice(), boundary.as_str())
    }
}

impl RequestView {
    /// Whether the request uploads files: a `POST` with a body and the content type
    /// `multipart/form-data`.
    pub open spec fn is_upload(self) -> bool {
        &&& match lookup(self.headers, "content-type"@) {
            Some(t) => crate::text::starts_with(lowercase(t), "multipart/form-data"@),
            None => false,
        }
        &&& self.body.len() > 0
        &&& self.method == MethodView::POST
    }

    /// The fields and files that the request uploads, or why it uploads none.
    pub open spec fn upload(self) -> Result<MultipartView, UploadError> {
        if !self.is_upload() {
            Err(UploadError::NotAnUpload)
        } else {
            match boundary_of(lookup(self.headers, "content-type"@)->0) {
                Some(boundary) => decoded(self.body, boundary),
                None => Err(UploadError::MissingBoundary),
            }
        }
    }
}

} // verus!
