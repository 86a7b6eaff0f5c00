//! Responses for files and directory listings.
//!
//! Reading the file system is left to the caller: these functions take what was read
//! and build the response.

use crate::chars::{chars_eq, chars_of, string_of, strip_trailing_chars};
use crate::foreign::{
    json_array, json_array_text, json_flag, json_flag_text, json_object, json_object_text,
    json_quote, json_string,
};
use crate::http::response::{Response, ResponseView};
use crate::http::status::StatusCode;
use crate::text::{string_views, strip_trailing, CharClass};
use vstd::prelude::*;
use vstd::string::{StrSliceExecFns, StringExecFns};
use vstd::utf8::encode_utf8;

verus! {

/// The content type for a file name extension, given without its dot.
pub open spec fn mime_type(extension: Seq<char>) -> Seq<char> {
    if extension == "html"@ {
        "text/html"@
    } else if extension == "css"@ {
        "text/css"@
    } else if extension == "js"@ {
        "application/javascript"@
    } else if extension == "png"@ {
        "image/png"@
    } else if extension == "jpg"@ || extension == "jpeg"@ {
        "image/jpeg"@
    } else if extension == "gif"@ {
        "image/gif"@
    } else if extension == "svg"@ {
        "image/svg+xml"@
    } else if extension == "webp"@ {
        "image/webp"@
    } else if extension == "ico"@ {
        "image/x-icon"@
    } else if extension == "pdf"@ {
        "application/pdf"@
    } else if extension == "json"@ {
        "application/json"@
    } else if extension == "xml"@ {
        "application/xml"@
    } else if extension == "txt"@ {
        "text/plain"@
    } else {
        "application/octet-stream"@
    }
}

/// The content type of a file: that of its extension, and `application/octet-stream`
/// for a file without one.
pub open spec fn type_of_file(extension: Option<Seq<char>>) -> Seq<char> {
    match extension {
        Some(e) => mime_type(e),
        None => "application/octet-stream"@,
    }
}

/// The response for a file: its content with its content type, or an internal error
/// where the file could not be read.
pub open spec fn file_response(extension: Option<Seq<char>>, content: Option<Seq<u8>>)
    -> ResponseView {
    match content {
        Some(bytes) => ResponseView::fresh(StatusCode::OK).with_header(
            "content-type"@,
            type_of_file(extension),
        ).with_body(bytes),
        None => ResponseView::fresh(StatusCode::InternalServerError),
    }
}

/// An entry of a directory.
#[derive(Debug)]
pub struct DirectoryEntry {
    /// The name of the entry.
    pub name: String,
    /// The path of the entry below the listed directory.
    pub relative_path: String,
    /// Whether the entry is a directory.
    pub is_dir: bool,
}

/// The model of a [`DirectoryEntry`].
pub struct EntryView {
    pub name: Seq<char>,
    pub relative_path: Seq<char>,
    pub is_dir: bool,
}

impl View for DirectoryEntry {
    type V = EntryView;

    open spec fn view(&self) -> EntryView {
        EntryView { name: self.name@, relative_path: self.relative_path@, is_dir: self.is_dir }
    }
}

/// The models of a list of entries.
pub open spec fn entry_views(entries: Seq<DirectoryEntry>) -> Seq<EntryView> {
    Seq::new(entries.len(), |i: int| entries[i]@)
}

/// `a` comes before `b` in the order of the dictionary, character by character.
pub open spec fn text_before(a: Seq<char>, b: Seq<char>) -> bool
    decreases a.len(),
{
    if b.len() == 0 {
        false
    } else if a.len() == 0 {
        true
    } else if a[0] != b[0] {
        a[0] < b[0]
    } else {
        text_before(a.drop_first(), b.drop_first())
    }
}

/// `a` is listed before `b`: directories before files, and among each by name.
pub open spec fn listed_before(a: EntryView, b: EntryView) -> bool {
    if a.is_dir != b.is_dir {
        a.is_dir
    } else {
        text_before(a.name, b.name)
    }
}

/// `sorted` with `e` put before the first entry that `e` is listed before, or at the
/// end.
pub open spec fn with_entry(sorted: Seq<EntryView>, e: EntryView) -> Seq<EntryView>
    decreases sorted.len(),
{
    if sorted.len() == 0 {
        seq![e]
    } else if listed_before(e, sorted[0]) {
        seq![e] + sorted
    } else {
        seq![sorted[0]] + with_entry(sorted.drop_first(), e)
    }
}

/// The entries in listing order; entries that neither is listed before the other
/// keep the order in which they were given.
pub open spec fn listing_order(entries: Seq<EntryView>) -> Seq<EntryView>
    decreases entries.len(),
{
    if entries.len() == 0 {
        Seq::empty()
    } else {
        with_entry(listing_order(entries.drop_last()), entries.last())
    }
}

/// The address of an entry: the request path without trailing slashes, a slash, the
/// path of the entry, and a slash more for a directory.
pub open spec fn entry_link(request_path: Seq<char>, e: EntryView) -> Seq<char> {
    strip_trailing(request_path, CharClass::Only('/')) + "/"@ + e.relative_path + (if e.is_dir {
        "/"@
    } else {
        Seq::empty()
    })
}

/// One list item with a link for each entry.
pub open spec fn html_items(request_path: Seq<char>, entries: Seq<EntryView>) -> Seq<char>
    decreases entries.len(),
{
    if entries.len() == 0 {
        Seq::empty()
    } else {
        html_items(request_path, entries.drop_last()) + "<li><a href=\""@ + entry_link(
            request_path,
            entries.last(),
        ) + "\">"@ + entries.last().name + "</a></li>"@
    }
}

/// The listing as an HTML page.
pub open spec fn html_listing(request_path: Seq<char>, entries: Seq<EntryView>) -> Seq<char> {
    "<html><body><ul>"@ + html_items(request_path, entries) + "</ul></body></html>"@
}

/// One entry as a JSON object with its name, its link, and whether it is a
/// directory.
pub open spec fn json_entry(request_path: Seq<char>, e: EntryView) -> Seq<char> {
    json_object(
        seq!["name"@, "link"@, "is_directory"@],
        seq![json_string(e.name), json_string(entry_link(request_path, e)), json_flag(e.is_dir)],
    )
}

/// The entries as JSON objects.
pub open spec fn json_entries(request_path: Seq<char>, entries: Seq<EntryView>) -> Seq<
    Seq<char>,
> {
    Seq::new(entries.len(), |i: int| json_entry(request_path, entries[i]))
}

/// The listing as a JSON document: the listed directory and the array of its
/// entries.
pub open spec fn json_listing(request_path: Seq<char>, entries: Seq<EntryView>) -> Seq<char> {
    json_object(
        seq!["directory"@, "entries"@],
        seq![json_string(request_path), json_array(json_entries(request_path, entries))],
    )
}

/// The response that lists a directory: JSON where the format is `json`, HTML
/// otherwise, the entries in listing order.
pub open spec fn listing_response(
    entries: Seq<EntryView>,
    request_path: Seq<char>,
    format: Option<Seq<char>>,
) -> ResponseView {
    let ordered = listing_order(entries);
    if format == Some("json"@) {
        ResponseView::fresh(StatusCode::OK).with_header(
            "content-type"@,
            "application/json"@,
        ).with_body(encode_utf8(json_listing(request_path, ordered)))
    } else {
        ResponseView::fresh(StatusCode::OK).with_header("content-type"@, "text/html"@).with_body(
            encode_utf8(html_listing(request_path, ordered)),
        )
    }
}

/// Where `e` goes in `sorted`: before the first entry that it is listed before.
pub proof fn lemma_with_entry_at(sorted: Seq<EntryView>, e: EntryView, at: int)
    requires
        0 <= at <= sorted.len(),
        forall|k: int| 0 <= k < at ==> !listed_before(e, #[trigger] sorted[k]),
        at < sorted.len() ==> listed_before(e, sorted[at]),
    ensures
        with_entry(sorted, e) == sorted.insert(at, e),
    decreases sorted.len(),
{
    if sorted.len() == 0 {
        assert(seq![e] =~= sorted.insert(0, e));
    } else if at == 0 {
        assert(seq![e] + sorted =~= sorted.insert(0, e));
    } else {
        assert(!listed_before(e, sorted[0]));
        let rest = sorted.drop_first();
        assert forall|k: int| 0 <= k < at - 1 implies !listed_before(e, #[trigger] rest[k]) by {
            assert(rest[k] == sorted[k + 1]);
        }
        lemma_with_entry_at(rest, e, at - 1);
        assert(seq![sorted[0]] + rest.insert(at - 1, e) =~= sorted.insert(at, e));
    }
}

/// The order of the dictionary never puts two texts each before the other.
pub proof fn lemma_text_before_one_way(a: Seq<char>, b: Seq<char>)
    requires
        text_before(a, b),
    ensures
        !text_before(b, a),
    decreases a.len(),
{
    if a.len() > 0 && b.len() > 0 && a[0] == b[0] {
        lemma_text_before_one_way(a.drop_first(), b.drop_first());
    }
}

/// The order of the dictionary is transitive.
pub proof fn lemma_text_before_chains(a: Seq<char>, b: Seq<char>, c: Seq<char>)
    requires
        text_before(a, b),
        text_before(b, c),
    ensures
        text_before(a, c),
    decreases a.len(),
{
    if a.len() > 0 && b.len() > 0 && c.len() > 0 && a[0] == b[0] && b[0] == c[0] {
        lemma_text_before_chains(a.drop_first(), b.drop_first(), c.drop_first());
    }
}

/// No entry is listed before itself or before one that is listed before it.
pub proof fn lemma_listed_before_one_way(a: EntryView, b: EntryView)
    requires
        listed_before(a, b),
    ensures
        !listed_before(b, a),
{
    if a.is_dir == b.is_dir {
        lemma_text_before_one_way(a.name, b.name);
    }
}

/// The listing order is transitive.
pub proof fn lemma_listed_before_chains(a: EntryView, b: EntryView, c: EntryView)
    requires
        listed_before(a, b),
        listed_before(b, c),
    ensures
        listed_before(a, c),
{
    if a.is_dir == b.is_dir && b.is_dir == c.is_dir {
        lemma_text_before_chains(a.name, b.name, c.name);
    }
}

/// No entry of `s` stands after one that it is listed before.
pub open spec fn in_listing_order(s: Seq<EntryView>) -> bool {
    forall|i: int, j: int| 0 <= i < j < s.len() ==> !listed_before(#[trigger] s[j], #[trigger] s[i])
}

/// The position at which `with_entry` puts `e`.
pub open spec fn slot(sorted: Seq<EntryView>, e: EntryView) -> int
    decreases sorted.len(),
{
    if sorted.len() == 0 || listed_before(e, sorted[0]) {
        0
    } else {
        1 + slot(sorted.drop_first(), e)
    }
}

/// `with_entry` inserts at `slot`, which is the first position whose entry `e` is
/// listed before.
pub proof fn lemma_slot(sorted: Seq<EntryView>, e: EntryView)
    ensures
        0 <= slot(sorted, e) <= sorted.len(),
        forall|k: int| 0 <= k < slot(sorted, e) ==> !listed_before(e, #[trigger] sorted[k]),
        slot(sorted, e) < sorted.len() ==> listed_before(e, sorted[slot(sorted, e)]),
        with_entry(sorted, e) == sorted.insert(slot(sorted, e), e),
    decreases sorted.len(),
{
    if sorted.len() == 0 || listed_before(e, sorted[0]) {
    } else {
        let rest = sorted.drop_first();
        lemma_slot(rest, e);
        assert forall|k: int| 0 <= k < slot(sorted, e) implies !listed_before(
            e,
            #[trigger] sorted[k],
        ) by {
            if k > 0 {
                assert(sorted[k] == rest[k - 1]);
            }
        }
        if slot(sorted, e) < sorted.len() {
            assert(sorted[slot(sorted, e)] == rest[slot(rest, e)]);
        }
    }
    lemma_with_entry_at(sorted, e, slot(sorted, e));
}

/// Putting an entry into a list in listing order leaves it in listing order, and
/// adds that entry and no other.
pub proof fn lemma_with_entry_keeps_order(sorted: Seq<EntryView>, e: EntryView)
    requires
        in_listing_order(sorted),
    ensures
        in_listing_order(with_entry(sorted, e)),
        with_entry(sorted, e).to_multiset() == sorted.to_multiset().insert(e),
{
    lemma_slot(sorted, e);
    let at = slot(sorted, e);
    let t = sorted.insert(at, e);
    assert forall|i: int, j: int| 0 <= i < j < t.len() implies !listed_before(
        #[trigger] t[j],
        #[trigger] t[i],
    ) by {
        if j < at {
            assert(t[i] == sorted[i] && t[j] == sorted[j]);
        } else if j == at {
            assert(t[i] == sorted[i]);
        } else if i == at {
            assert(t[j] == sorted[j - 1]);
            if listed_before(sorted[j - 1], e) {
                if j - 1 == at {
                    lemma_listed_before_one_way(e, sorted[at]);
                } else {
                    lemma_listed_before_chains(sorted[j - 1], e, sorted[at]);
                    assert(!listed_before(sorted[j - 1], sorted[at]));
                }
            }
        } else if i > at {
            assert(t[i] == sorted[i - 1] && t[j] == sorted[j - 1]);
        } else {
            assert(t[i] == sorted[i] && t[j] == sorted[j - 1]);
        }
    }
    vstd::seq_lib::to_multiset_insert(sorted, at, e);
}

/// The listing order holds the given entries, each as often as it was given, and
/// none of them after one that it is listed before.
pub proof fn lemma_listing_order(entries: Seq<EntryView>)
    ensures
        in_listing_order(listing_order(entries)),
        listing_order(entries).to_multiset() == entries.to_multiset(),
        listing_order(entries).len() == entries.len(),
    decreases entries.len(),
{
    if entries.len() == 0 {
        assert(listing_order(entries) =~= entries);
    } else {
        let shorter = entries.drop_last();
        lemma_listing_order(shorter);
        lemma_with_entry_keeps_order(listing_order(shorter), entries.last());
        lemma_slot(listing_order(shorter), entries.last());
        assert(shorter.push(entries.last()) =~= entries);
        vstd::seq_lib::to_multiset_build(shorter, entries.last());
    }
}

/// Serving the same file twice puts the same bytes on the wire.
pub proof fn lemma_same_file_same_bytes(
    extension: Option<Seq<char>>,
    content: Option<Seq<u8>>,
    first: Response,
    second: Response,
)
    requires
        first@ == file_response(extension, content),
        second@ == file_response(extension, content),
    ensures
        first@.wire() == second@.wire(),
{
}

/// The response for a file that was read declares the length of the file.
pub proof fn lemma_file_response_declares_length(extension: Option<Seq<char>>, content: Seq<u8>)
    ensures
        crate::string_map::lookup(
            file_response(extension, Some(content)).headers,
            "content-length"@,
        ) == Some(crate::text::decimal(content.len())),
        file_response(extension, Some(content)).body == content,
{
    let before = ResponseView::fresh(StatusCode::OK).with_header(
        "content-type"@,
        type_of_file(extension),
    );
    crate::http::response::lemma_content_length(before, content);
}

/// Serves files and directory listings.
pub struct FileServer;

impl FileServer {
    /// The content type for a file name extension, given without its dot.
    pub fn content_type_for(extension: &str) -> (r: &'static str)
        ensures
            r@ == mime_type(extension@),
    {
        let e = chars_of(extension);
        let e = e.as_slice();
        if chars_eq(e, chars_of("html").as_slice()) {
            "text/html"
        } else if chars_eq(e, chars_of("css").as_slice()) {
            "text/css"
        } else if chars_eq(e, chars_of("js").as_slice()) {
            "application/javascript"
        } else if chars_eq(e, chars_of("png").as_slice()) {
            "image/png"
        } else if chars_eq(e, chars_of("jpg").as_slice()) || chars_eq(
            e,
            chars_of("jpeg").as_slice(),
        ) {
            "image/jpeg"
        } else if chars_eq(e, chars_of("gif").as_slice()) {
            "image/gif"
        } else if chars_eq(e, chars_of("svg").as_slice()) {
            "image/svg+xml"
        } else if chars_eq(e, chars_of("webp").as_slice()) {
            "image/webp"
        } else if chars_eq(e, chars_of("ico").as_slice()) {
            "image/x-icon"
        } else if chars_eq(e, chars_of("pdf").as_slice()) {
            "application/pdf"
        } else if chars_eq(e, chars_of("json").as_slice()) {
            "application/json"
        } else if chars_eq(e, chars_of("xml").as_slice()) {
            "application/xml"
        } else if chars_eq(e, chars_of("txt").as_slice()) {
            "text/plain"
        } else {
            "application/octet-stream"
        }
    }

    /// The response for a file. `extension` is the extension of its name, if it has
    /// one; `content` is what was read, or `None` where reading failed.
    pub fn serve_file(extension: Option<&str>, content: Option<Vec<u8>>) -> (r: Response)
        ensures
            r@ == file_response(
                match extension {
                    Some(e) => Some(e@),
                    None => None,
                },
                match content {
                    Some(c) => Some(c@),
                    None => None,
                },
            ),
    {
        match content {
            Some(bytes) => {
                let mut response = Response::new(StatusCode::OK);
                match extension {
                    Some(e) => response.set_field("content-type", Self::content_type_for(e)),
                    None => response.set_field("content-type", "application/octet-stream"),
                }
                response.set_body(bytes);
                response
            },
            None => Response::new(StatusCode::InternalServerError),
        }
    }

    /// Whether `a` comes before `b` in the order of the dictionary.
    pub fn text_is_before(a: &[char], b: &[char]) -> (r: bool)
        ensures
            r == text_before(a@, b@),
    {
        let n = a.len();
        let m = b.len();
        let mut i: usize = 0;
        proof {
            assert(a@.skip(0) =~= a@);
            assert(b@.skip(0) =~= b@);
        }
        while i < n && i < m
            invariant
                n == a@.len(),
                m == b@.len(),
                i <= n,
                i <= m,
                text_before(a@, b@) == text_before(a@.skip(i as int), b@.skip(i as int)),
            decreases n - i,
        {
            if a[i] != b[i] {
                return a[i] < b[i];
            }
            proof {
                assert(a@.skip(i as int).drop_first() =~= a@.skip(i + 1));
                assert(b@.skip(i as int).drop_first() =~= b@.skip(i + 1));
            }
            i += 1;
        }
        i < m
    }

    /// Whether `a` is listed before `b`.
    pub fn is_listed_before(a: &DirectoryEntry, b: &DirectoryEntry) -> (r: bool)
        ensures
            r == listed_before(a@, b@),
    {
        if a.is_dir != b.is_dir {
            a.is_dir
        } else {
            let x = chars_of(a.name.as_str());
            let y = chars_of(b.name.as_str());
            Self::text_is_before(x.as_slice(), y.as_slice())
        }
    }

    /// The entries in listing order.
    pub fn sort_entries(entries: &Vec<DirectoryEntry>) -> (sorted: Vec<DirectoryEntry>)
        ensures
            entry_views(sorted@) == listing_order(entry_views(entries@)),
    {
        let mut sorted: Vec<DirectoryEntry> = Vec::new();
        let n = entries.len();
        let mut i: usize = 0;
        let ghost all = entry_views(entries@);
        proof {
            assert(all.take(0) =~= Seq::<EntryView>::empty());
            assert(entry_views(sorted@) =~= Seq::<EntryView>::empty());
        }
        while i < n
            invariant
                n == entries@.len(),
                i <= n,
                all == entry_views(entries@),
                entry_views(sorted@) == listing_order(all.take(i as int)),
            decreases n - i,
        {
            let e = &entries[i];
            let count = sorted.len();
            let mut at: usize = 0;
            while at < count && !Self::is_listed_before(e, &sorted[at])
                invariant
                    count == sorted@.len(),
                    at <= count,
                    forall|k: int|
                        0 <= k < at ==> !listed_before(e@, #[trigger] entry_views(sorted@)[k]),
                decreases count - at,
            {
                at += 1;
            }
            let ghost before = entry_views(sorted@);
            proof {
                if at < count {
                    assert(before[at as int] == sorted@[at as int]@);
                }
                lemma_with_entry_at(before, e@, at as int);
                assert(all.take(i + 1).drop_last() =~= all.take(i as int));
                assert(all.take(i + 1).last() == e@);
            }
            let copy = DirectoryEntry {
                name: e.name.clone(),
                relative_path: e.relative_path.clone(),
                is_dir: e.is_dir,
            };
            sorted.insert(at, copy);
            proof {
                assert(entry_views(sorted@) =~= before.insert(at as int, e@));
            }
            i += 1;
        }
        proof {
            assert(all.take(n as int) =~= all);
        }
        sorted
    }

    fn link_of(base: &str, e: &DirectoryEntry) -> (r: String)
        ensures
            r@ == base@ + "/"@ + e@.relative_path + (if e.is_dir {
                "/"@
            } else {
                Seq::empty()
            }),
    {
        let mut link = base.to_owned();
        link.append("/");
        link.append(e.relative_path.as_str());
        if e.is_dir {
            link.append("/");
        }
        proof {
            assert(link@ =~= base@ + "/"@ + e@.relative_path + (if e.is_dir {
                "/"@
            } else {
                Seq::empty()
            }));
        }
        link
    }

    /// The response that lists a directory. `entries` are the entries as they were
    /// read, `request_path` the path under which the directory is listed, `format`
    /// the configured format of listings.
    pub fn serve_directory_listing(
        entries: &Vec<DirectoryEntry>,
        request_path: &str,
        format: Option<&str>,
    ) -> (r: Response)
        ensures
            r@ == listing_response(
                entry_views(entries@),
                request_path@,
                match format {
                    Some(f) => Some(f@),
                    None => None,
                },
            ),
    {
        let ordered = Self::sort_entries(entries);
        let ghost views = entry_views(ordered@);
        let path = chars_of(request_path);
        let base = string_of(strip_trailing_chars(path.as_slice(), CharClass::Only('/')));
        let as_json = match format {
            Some(f) => chars_eq(chars_of(f).as_slice(), chars_of("json").as_slice()),
            None => false,
        };
        let mut response = Response::new(StatusCode::OK);
        let n = ordered.len();
        let mut i: usize = 0;
        if as_json {
            let mut items: Vec<String> = Vec::new();
            while i < n
                invariant
                    n == ordered@.len(),
                    i <= n,
                    views == entry_views(ordered@),
                    base@ == strip_trailing(request_path@, CharClass::Only('/')),
                    items@.len() == i,
                    forall|k: int|
                        0 <= k < i ==> (#[trigger] items@[k])@ == json_entry(request_path@, views[k]),
                decreases n - i,
            {
                let e = &ordered[i];
                proof {
                    assert(views[i as int] == e@);
                }
                let mut names: Vec<String> = Vec::new();
                names.push("name".to_owned());
                names.push("link".to_owned());
                names.push("is_directory".to_owned());
                let mut members: Vec<String> = Vec::new();
                members.push(json_quote(e.name.as_str()));
                members.push(json_quote(Self::link_of(base.as_str(), e).as_str()));
                members.push(json_flag_text(e.is_dir));
                proof {
                    assert(string_views(names@) =~= seq!["name"@, "link"@, "is_directory"@]);
                    assert(string_views(members@) =~= seq![
                        json_string(e@.name),
                        json_string(entry_link(request_path@, e@)),
                        json_flag(e@.is_dir),
                    ]);
                }
                items.push(json_object_text(&names, &members));
                i += 1;
            }
            proof {
                assert(string_views(items@) =~= json_entries(request_path@, views));
            }
            let mut names: Vec<String> = Vec::new();
            names.push("directory".to_owned());
            names.push("entries".to_owned());
            let mut members: Vec<String> = Vec::new();
            members.push(json_quote(request_path));
            members.push(json_array_text(&items));
            proof {
                assert(string_views(names@) =~= seq!["directory"@, "entries"@]);
                assert(string_views(members@) =~= seq![
                    json_string(request_path@),
                    json_array(json_entries(request_path@, views)),
                ]);
            }
            let text = json_object_text(&names, &members);
            response.set_field("content-type", "application/json");
            response.set_body(text.as_str().as_bytes_vec());
        } else {
            let mut text = String::new();
            text.append("<html><body><ul>");
            let ghost head = text@;
            proof {
                assert(views.take(0) =~= Seq::<EntryView>::empty());
                assert(text@ =~= head + html_items(request_path@, views.take(0)));
            }
            while i < n
                invariant
                    n == ordered@.len(),
                    i <= n,
                    views == entry_views(ordered@),
                    base@ == strip_trailing(request_path@, CharClass::Only('/')),
                    text@ == head + html_items(request_path@, views.take(i as int)),
                decreases n - i,
            {
                let e = &ordered[i];
                proof {
                    assert(views.take(i + 1).drop_last() =~= views.take(i as int));
                    assert(views.take(i + 1).last() == e@);
                }
                text.append("<li><a href=\"");
                text.append(Self::link_of(base.as_str(), e).as_str());
                text.append("\">");
                text.append(e.name.as_str());
                text.append("</a></li>");
                proof {
                    assert(text@ =~= head + html_items(request_path@, views.take(i + 1)));
                }
                i += 1;
            }
            text.append("</ul></body></html>");
            proof {
                assert(views.take(n as int) =~= views);
                assert(text@ =~= html_listing(request_path@, views));
            }
            response.set_field("content-type", "text/html");
            response.set_body(text.as_str().as_bytes_vec());
        }
        response
    }
}

} // verus!
