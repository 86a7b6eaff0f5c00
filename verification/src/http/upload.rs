//! Decoding of `multipart/form-data` bodies, and the size rule for uploads.

use crate::chars::{
    chars_of, find_chars, lines_chars, split_chars, starts_with_chars, string_of, trim_chars,
};
use crate::foreign::{utf8_lossy, utf8_text_lossy};
use crate::http::request::head_end_mark;
use crate::string_map::{upsert, Pairs, StringMap};
use crate::text::{
    contains, find, find_bytes_from, find_from, lemma_find_from, lines, seqs_of, split,
    split_once, starts_with, trim,
};
use crate::utils::{parse_size, size_of};
use vstd::prelude::*;
use vstd::slice::{slice_subrange, slice_to_vec};
use vstd::string::{StrSliceExecFns, StringExecFns};
use vstd::utf8::encode_utf8;

verus! {

/// A file of a multipart body.
#[derive(Debug)]
pub struct UploadedFile {
    pub name: String,
    pub filename: String,
    pub content_type: String,
    pub content: Vec<u8>,
}

/// The model of an [`UploadedFile`].
pub struct UploadedFileView {
    pub name: Seq<char>,
    pub filename: Seq<char>,
    pub content_type: Seq<char>,
    pub content: Seq<u8>,
}

impl View for UploadedFile {
    type V = UploadedFileView;

    open spec fn view(&self) -> UploadedFileView {
        UploadedFileView {
            name: self.name@,
            filename: self.filename@,
            content_type: self.content_type@,
            content: self.content@,
        }
    }
}

/// The fields and files of a multipart body.
#[derive(Debug)]
pub struct MultipartFormData {
    pub fields: StringMap,
    pub files: Vec<UploadedFile>,
}

/// The model of a [`MultipartFormData`].
pub struct MultipartView {
    pub fields: Pairs,
    pub files: Seq<UploadedFileView>,
}

/// The models of a list of files.
pub open spec fn file_views(files: Seq<UploadedFile>) -> Seq<UploadedFileView> {
    Seq::new(files.len(), |i: int| files[i]@)
}

impl View for MultipartFormData {
    type V = MultipartView;

    open spec fn view(&self) -> MultipartView {
        MultipartView { fields: self.fields@, files: file_views(self.files@) }
    }
}

/// Why a body could not be decoded.
#[derive(Debug, Clone, Copy, PartialEq, Eq, Structural)]
pub enum UploadError {
    /// The request is no `POST` of `multipart/form-data` with a body.
    NotAnUpload,
    /// The content type declares no boundary.
    MissingBoundary,
    /// The body is empty.
    EmptyBody,
    /// The body holds no field and no file.
    NoParts,
}

/// One part of a multipart body: the text of its head and the bytes of its content.
pub struct PartView {
    pub head: Seq<char>,
    pub content: Seq<u8>,
}

/// The bytes that open each part: two hyphens and the boundary.
pub open spec fn opening_mark(boundary: Seq<char>) -> Seq<u8> {
    encode_utf8("--"@ + boundary)
}

/// The bytes that close the body: the opening mark and two more hyphens.
pub open spec fn closing_mark(boundary: Seq<char>) -> Seq<u8> {
    encode_utf8("--"@ + boundary + "--"@)
}

/// Two hyphens follow the mark that stands at `at`.
pub open spec fn closes_at(body: Seq<u8>, mark: Seq<u8>, at: int) -> bool {
    &&& at + mark.len() + 2 <= body.len()
    &&& body[at + mark.len()] == 45u8
    &&& body[at + mark.len() + 1] == 45u8
}

/// The positions of the opening marks at or after `from`, in order, up to the first
/// one that two hyphens follow.
pub open spec fn mark_positions(body: Seq<u8>, mark: Seq<u8>, from: int) -> Seq<int>
    decreases body.len() - from,
{
    if 0 <= from < body.len() && mark.len() > 0 {
        match find_from(body, mark, from) {
            Some(at) => if from <= at && at + mark.len() <= body.len() && !closes_at(
                body,
                mark,
                at,
            ) {
                seq![at] + mark_positions(body, mark, at + mark.len())
            } else {
                Seq::empty()
            },
            None => Seq::empty(),
        }
    } else {
        Seq::empty()
    }
}

/// Where the part that begins at `start` ends: at the next opening mark, or for the
/// last part at the closing mark, or else at the end of the body.
pub open spec fn part_end(body: Seq<u8>, closing: Seq<u8>, start: int, next: Option<int>) -> int {
    match next {
        Some(n) => n,
        None => match find_from(body, closing, start) {
            Some(e) => e,
            None => body.len() as int,
        },
    }
}

/// The part between `start` and `end`. It must open with CR LF; its head runs to the
/// first empty line; its content is what follows, without a CR LF that stands just
/// before `end`. The content may be empty.
pub open spec fn part_between(body: Seq<u8>, start: int, end: int) -> Option<PartView> {
    if 0 <= start && start + 2 <= end && end <= body.len() && body[start] == 13u8 && body[start
        + 1] == 10u8 {
        match find(body.subrange(start + 2, end), head_end_mark()) {
            Some(h) => {
                let content_start = start + 2 + h + 4;
                let content_end = if body[end - 2] == 13u8 && body[end - 1] == 10u8 {
                    end - 2
                } else {
                    end
                };
                if content_start <= content_end {
                    Some(
                        PartView {
                            head: utf8_lossy(body.subrange(start + 2, start + 2 + h)),
                            content: body.subrange(content_start, content_end),
                        },
                    )
                } else {
                    None
                }
            },
            None => None,
        }
    } else {
        None
    }
}

/// The second piece of `s` when cut at `d`.
pub open spec fn second_piece(s: Seq<char>, d: Seq<char>) -> Option<Seq<char>> {
    if split(s, d).len() >= 2 {
        Some(split(s, d)[1])
    } else {
        None
    }
}

/// The value of the parameter among `pieces` that, once trimmed, begins with
/// `opening` (the name of the parameter, `=` and a double quote): the text from
/// that quote to the next one, or to the end of the piece.
pub open spec fn parameter_in(pieces: Seq<Seq<char>>, opening: Seq<char>) -> Option<Seq<char>>
    decreases pieces.len(),
{
    if pieces.len() == 0 {
        None
    } else if starts_with(trim(pieces[0]), opening) {
        second_piece(trim(pieces[0]), seq!['"'])
    } else {
        parameter_in(pieces.drop_first(), opening)
    }
}

/// The value of a parameter of a header line, the line cut at its semicolons.
pub open spec fn parameter_of_line(line: Seq<char>, opening: Seq<char>) -> Option<Seq<char>> {
    parameter_in(split(line, seq![';']), opening)
}

/// The value of a parameter in the first `Content-Disposition:` line that has it.
pub open spec fn disposition_value(lines: Seq<Seq<char>>, opening: Seq<char>) -> Option<
    Seq<char>,
>
    decreases lines.len(),
{
    if lines.len() == 0 {
        None
    } else if contains(lines[0], "Content-Disposition:"@) && parameter_of_line(lines[0], opening)
        is Some {
        parameter_of_line(lines[0], opening)
    } else {
        disposition_value(lines.drop_first(), opening)
    }
}

/// The trimmed text after the first colon of the first `Content-Type:` line.
pub open spec fn declared_type(lines: Seq<Seq<char>>) -> Option<Seq<char>>
    decreases lines.len(),
{
    if lines.len() == 0 {
        None
    } else if contains(lines[0], "Content-Type:"@) {
        match split_once(lines[0], seq![':']) {
            Some((_, value)) => Some(trim(value)),
            None => None,
        }
    } else {
        declared_type(lines.drop_first())
    }
}

/// The field name that the head of a part declares: the value of the parameter
/// `name` of its content disposition.
pub open spec fn field_name(head: Seq<char>) -> Option<Seq<char>> {
    disposition_value(lines(head), "name=\""@)
}

/// The file name that the head of a part declares: the value of the parameter
/// `filename` of its content disposition.
pub open spec fn file_name(head: Seq<char>) -> Option<Seq<char>> {
    disposition_value(lines(head), "filename=\""@)
}

/// The content type that the head of a part declares.
pub open spec fn content_type(head: Seq<char>) -> Option<Seq<char>> {
    declared_type(lines(head))
}

impl MultipartView {
    /// Nothing decoded yet.
    pub open spec fn empty() -> MultipartView {
        MultipartView { fields: Seq::empty(), files: Seq::empty() }
    }

    /// The data after one more part. A part with a field name and a file name is a
    /// file; one with a field name only is a field, its content read as text; one
    /// without a field name is dropped.
    pub open spec fn with_part(self, part: PartView) -> MultipartView {
        match field_name(part.head) {
            Some(name) => match file_name(part.head) {
                Some(filename) => MultipartView {
                    files: self.files.push(
                        UploadedFileView {
                            name: name,
                            filename: filename,
                            content_type: match content_type(part.head) {
                                Some(t) => t,
                                None => "application/octet-stream"@,
                            },
                            content: part.content,
                        },
                    ),
                    ..self
                },
                None => MultipartView {
                    fields: upsert(self.fields, name, utf8_lossy(part.content)),
                    ..self
                },
            },
            None => self,
        }
    }
}

/// The part that the `i`-th opening mark begins.
pub open spec fn part_at(body: Seq<u8>, boundary: Seq<char>, positions: Seq<int>, i: int) -> Option<
    PartView,
> {
    let start = positions[i] + opening_mark(boundary).len();
    let next = if i + 1 < positions.len() {
        Some(positions[i + 1])
    } else {
        None
    };
    part_between(body, start, part_end(body, closing_mark(boundary), start, next))
}

/// The data of the first `count` parts.
pub open spec fn collected(body: Seq<u8>, boundary: Seq<char>, positions: Seq<int>, count: int)
    -> MultipartView
    decreases count,
{
    if count <= 0 {
        MultipartView::empty()
    } else {
        let before = collected(body, boundary, positions, count - 1);
        match part_at(body, boundary, positions, count - 1) {
            Some(part) => before.with_part(part),
            None => before,
        }
    }
}

/// What a multipart body with the given boundary holds, or why it cannot be decoded.
pub open spec fn decoded(body: Seq<u8>, boundary: Seq<char>) -> Result<MultipartView, UploadError> {
    if body.len() == 0 {
        Err(UploadError::EmptyBody)
    } else {
        let positions = mark_positions(body, opening_mark(boundary), 0);
        let data = collected(body, boundary, positions, positions.len() as int);
        if data.files.len() == 0 && data.fields.len() == 0 {
            Err(UploadError::NoParts)
        } else {
            Ok(data)
        }
    }
}

/// The size limit that applies when none is configured or the configured one cannot
/// be read: ten million bytes.
pub const DEFAULT_MAX_BODY_SIZE: u64 = 10_000_000;

/// The limit that a size string sets.
pub open spec fn limit_of(max_body_size: Seq<char>) -> u64 {
    match size_of(max_body_size) {
        Some(n) => n,
        None => DEFAULT_MAX_BODY_SIZE,
    }
}

/// The number of files at the front of `files` that are within the limit.
pub open spec fn accepted_count(files: Seq<UploadedFileView>, limit: u64) -> nat
    decreases files.len(),
{
    if files.len() == 0 || files[0].content.len() > limit {
        0
    } else {
        1 + accepted_count(files.drop_first(), limit)
    }
}

/// One file to write.
#[derive(Debug)]
pub struct PlannedWrite {
    /// Where the file goes: the upload directory, `uploads/`, and the file's name.
    pub path: String,
    /// The name under which the file was sent.
    pub filename: String,
    /// The position of the file among the uploaded files.
    pub index: usize,
}

/// What an upload asks of the file system.
#[derive(Debug)]
pub struct UploadPlan {
    /// The directory to create first: the upload directory followed by `uploads`.
    pub directory: String,
    /// The files to write, in order.
    pub writes: Vec<PlannedWrite>,
    /// Whether a file over the size limit ends the upload after these writes.
    pub rejected: bool,
}

/// Applies the size limit to the files of an upload.
#[derive(Debug)]
pub struct UploadHandler {
    max_body_size: u64,
    upload_dir: String,
}

impl UploadHandler {
    /// A handler with the limit that `max_body_size` sets, for files under `upload_dir`.
    pub fn new(max_body_size: &str, upload_dir: &str) -> (h: UploadHandler)
        ensures
            h.limit() == limit_of(max_body_size@),
            h.directory() == upload_dir@,
    {
        let size_limit = match parse_size(max_body_size) {
            Some(n) => n,
            None => DEFAULT_MAX_BODY_SIZE,
        };
        UploadHandler { max_body_size: size_limit, upload_dir: upload_dir.to_owned() }
    }

    /// The largest content that the handler accepts, in bytes.
    pub closed spec fn limit(&self) -> u64 {
        self.max_body_size
    }

    /// The directory under which the handler stores files.
    pub closed spec fn directory(&self) -> Seq<char> {
        self.upload_dir@
    }

    /// The writes that an upload needs. Files are taken in order up to the first one
    /// over the limit; that one, if there is one, makes the upload fail once the
    /// files before it are written.
    pub fn handle_upload(&self, multipart_data: &MultipartFormData) -> (plan: UploadPlan)
        ensures
            plan.directory@ == self.directory() + "uploads"@,
            plan.writes@.len() == accepted_count(multipart_data@.files, self.limit()),
            plan.writes@.len() <= multipart_data@.files.len(),
            plan.rejected == (plan.writes@.len() < multipart_data@.files.len()),
            forall|i: int|
                0 <= i < plan.writes@.len() ==> {
                    &&& (#[trigger] plan.writes@[i]).index == i
                    &&& plan.writes@[i].filename@ == multipart_data@.files[i].filename
                    &&& plan.writes@[i].path@ == self.directory() + "uploads/"@
                        + multipart_data@.files[i].filename
                },
    {
        let mut directory = self.upload_dir.clone();
        directory.append("uploads");
        let mut writes: Vec<PlannedWrite> = Vec::new();
        let n = multipart_data.files.len();
        let mut i: usize = 0;
        let ghost files = multipart_data@.files;
        proof {
            assert(files.skip(0) =~= files);
        }
        while i < n
            invariant
                n == multipart_data.files@.len(),
                files == multipart_data@.files,
                files.len() == n,
                i <= n,
                writes@.len() == i,
                directory@ == self.directory() + "uploads"@,
                accepted_count(files, self.limit()) == i + accepted_count(
                    files.skip(i as int),
                    self.limit(),
                ),
                forall|k: int|
                    0 <= k < i ==> {
                        &&& (#[trigger] writes@[k]).index == k
                        &&& writes@[k].filename@ == files[k].filename
                        &&& writes@[k].path@ == self.directory() + "uploads/"@ + files[k].filename
                    },
            decreases n - i,
        {
            let file = &multipart_data.files[i];
            proof {
                assert(files.skip(i as int)[0] == files[i as int]);
                assert(files[i as int] == multipart_data.files@[i as int]@);
                assert(files.skip(i as int).drop_first() =~= files.skip(i + 1));
            }
            if file.content.len() as u64 > self.max_body_size {
                return UploadPlan { directory, writes, rejected: true };
            }
            let mut path = self.upload_dir.clone();
            path.append("uploads/");
            path.append(file.filename.as_str());
            writes.push(PlannedWrite { path, filename: file.filename.clone(), index: i });
            i += 1;
        }
        UploadPlan { directory, writes, rejected: false }
    }
}

/// Position of the first occurrence of `needle` in `haystack`.
pub fn find_subsequence(haystack: &[u8], needle: &[u8]) -> (r: Option<usize>)
    ensures
        match r {
            Some(i) => find(haystack@, needle@) == Some(i as int) && i + needle@.len()
                <= haystack@.len(),
            None => find(haystack@, needle@) is None,
        },
{
    let r = find_bytes_from(haystack, needle, 0);
    proof {
        lemma_find_from(haystack@, needle@, 0);
    }
    r
}

fn second_piece_of(s: &[char], d: &[char]) -> (r: Option<Vec<char>>)
    ensures
        match r {
            Some(p) => second_piece(s@, d@) == Some(p@),
            None => second_piece(s@, d@) is None,
        },
{
    let mut pieces = split_chars(s, d);
    if pieces.len() >= 2 {
        proof {
            assert(seqs_of(pieces@)[1] == pieces@[1]@);
        }
        let p = pieces.swap_remove(1);
        Some(p)
    } else {
        None
    }
}

fn has(line: &[char], what: &[char]) -> (r: bool)
    ensures
        r == contains(line@, what@),
{
    find_chars(line, what).is_some()
}

fn parameter_of(line: &[char], opening: &[char]) -> (r: Option<Vec<char>>)
    ensures
        match r {
            Some(v) => parameter_of_line(line@, opening@) == Some(v@),
            None => parameter_of_line(line@, opening@) is None,
        },
{
    let semicolon: [char; 1] = [';'];
    let quote: [char; 1] = ['"'];
    proof {
        assert(semicolon@ =~= seq![';']);
        assert(quote@ =~= seq!['"']);
    }
    let pieces = split_chars(line, semicolon.as_slice());
    let n = pieces.len();
    let mut i: usize = 0;
    proof {
        assert(seqs_of(pieces@).skip(0) =~= seqs_of(pieces@));
    }
    while i < n
        invariant
            n == pieces@.len(),
            i <= n,
            quote@ == seq!['"'],
            seqs_of(pieces@) == split(line@, seq![';']),
            parameter_in(seqs_of(pieces@), opening@) == parameter_in(
                seqs_of(pieces@).skip(i as int),
                opening@,
            ),
        decreases n - i,
    {
        let piece = trim_chars(pieces[i].as_slice());
        proof {
            let rest = seqs_of(pieces@).skip(i as int);
            assert(rest[0] == pieces@[i as int]@);
            assert(rest.drop_first() =~= seqs_of(pieces@).skip(i + 1));
        }
        if starts_with_chars(piece, opening) {
            return second_piece_of(piece, quote.as_slice());
        }
        i += 1;
    }
    None
}

fn disposition_value_of(head: &str, opening: &str) -> (r: Option<String>)
    ensures
        crate::text::text_of(r) == disposition_value(lines(head@), opening@),
{
    let text = chars_of(head);
    let all = lines_chars(text.as_slice());
    let marker = chars_of("Content-Disposition:");
    let wanted = chars_of(opening);
    let n = all.len();
    let mut i: usize = 0;
    proof {
        assert(seqs_of(all@).skip(0) =~= seqs_of(all@));
    }
    while i < n
        invariant
            n == all@.len(),
            i <= n,
            marker@ == "Content-Disposition:"@,
            wanted@ == opening@,
            seqs_of(all@) == lines(head@),
            disposition_value(seqs_of(all@), opening@) == disposition_value(
                seqs_of(all@).skip(i as int),
                opening@,
            ),
        decreases n - i,
    {
        let line = all[i].as_slice();
        proof {
            let rest = seqs_of(all@).skip(i as int);
            assert(rest[0] == line@);
            assert(rest.drop_first() =~= seqs_of(all@).skip(i + 1));
        }
        if has(line, marker.as_slice()) {
            match parameter_of(line, wanted.as_slice()) {
                Some(v) => {
                    return Some(string_of(v.as_slice()));
                },
                None => {},
            }
        }
        i += 1;
    }
    None
}

impl MultipartFormData {
    /// The field name that the head of a part declares.
    pub fn extract_field_name(headers: &str) -> (r: Option<String>)
        ensures
            crate::text::text_of(r) == field_name(headers@),
    {
        disposition_value_of(headers, "name=\"")
    }

    /// The file name that the head of a part declares.
    pub fn extract_filename(headers: &str) -> (r: Option<String>)
        ensures
            crate::text::text_of(r) == file_name(headers@),
    {
        disposition_value_of(headers, "filename=\"")
    }

    /// The content type that the head of a part declares.
    pub fn extract_content_type(headers: &str) -> (r: Option<String>)
        ensures
            crate::text::text_of(r) == content_type(headers@),
    {
        let text = chars_of(headers);
        let all = lines_chars(text.as_slice());
        let marker = chars_of("Content-Type:");
        let colon: [char; 1] = [':'];
        proof {
            assert(colon@ =~= seq![':']);
        }
        let n = all.len();
        let mut i: usize = 0;
        proof {
            assert(seqs_of(all@).skip(0) =~= seqs_of(all@));
        }
        while i < n
            invariant
                n == all@.len(),
                i <= n,
                marker@ == "Content-Type:"@,
                colon@ == seq![':'],
                seqs_of(all@) == lines(headers@),
                declared_type(seqs_of(all@)) == declared_type(seqs_of(all@).skip(i as int)),
            decreases n - i,
        {
            let line = all[i].as_slice();
            proof {
                let rest = seqs_of(all@).skip(i as int);
                assert(rest[0] == line@);
                assert(rest.drop_first() =~= seqs_of(all@).skip(i + 1));
            }
            if has(line, marker.as_slice()) {
                let width = line.len();
                return match find_chars(line, colon.as_slice()) {
                    Some(c) => {
                        let value = slice_subrange(line, c + 1, width);
                        proof {
                            assert(value@ =~= line@.skip(c + 1));
                        }
                        Some(string_of(trim_chars(value)))
                    },
                    None => None,
                };
            }
            i += 1;
        }
        None
    }

    fn mark_positions_of(body: &[u8], mark: &[u8]) -> (r: Vec<usize>)
        ensures
            r@.len() == mark_positions(body@, mark@, 0).len(),
            forall|i: int| 0 <= i < r@.len() ==> r@[i] as int == #[trigger] mark_positions(
                body@,
                mark@,
                0,
            )[i],
            forall|i: int| 0 <= i < r@.len() ==> (#[trigger] r@[i]) + mark@.len() <= body@.len(),
    {
        let mut positions: Vec<usize> = Vec::new();
        let total = body.len();
        let width = mark.len();
        if width == 0 {
            return positions;
        }
        let mut pos: usize = 0;
        let ghost mut found: Seq<int> = Seq::empty();
        proof {
            assert(found + mark_positions(body@, mark@, 0) =~= mark_positions(body@, mark@, 0));
        }
        while pos < total
            invariant
                total == body@.len(),
                width == mark@.len(),
                width > 0,
                found.len() == positions@.len(),
                forall|i: int| 0 <= i < found.len() ==> positions@[i] as int == found[i],
                forall|i: int|
                    0 <= i < positions@.len() ==> (#[trigger] positions@[i]) + width <= total,
                mark_positions(body@, mark@, 0) == found + mark_positions(body@, mark@, pos as int),
            decreases total - pos,
        {
            proof {
                lemma_find_from(body@, mark@, pos as int);
            }
            match find_bytes_from(body, mark, pos) {
                Some(at) => {
                    let after = at + width;
                    if total - after >= 2 && body[after] == 45u8 && body[after + 1] == 45u8 {
                        proof {
                            assert(found + Seq::<int>::empty() =~= found);
                        }
                        return positions;
                    }
                    positions.push(at);
                    proof {
                        let rest = mark_positions(body@, mark@, after as int);
                        assert(found + (seq![at as int] + rest) =~= found.push(at as int) + rest);
                        found = found.push(at as int);
                    }
                    pos = after;
                },
                None => {
                    proof {
                        assert(found + Seq::<int>::empty() =~= found);
                    }
                    return positions;
                },
            }
        }
        proof {
            assert(found + Seq::<int>::empty() =~= found);
        }
        positions
    }

    fn part_between_of(body: &[u8], start: usize, end: usize) -> (r: Option<(String, Vec<u8>)>)
        ensures
            match r {
                Some(p) => part_between(body@, start as int, end as int) == Some(
                    PartView { head: p.0@, content: p.1@ },
                ),
                None => part_between(body@, start as int, end as int) is None,
            },
    {
        let total = body.len();
        if end > total || end < 2 || start > end - 2 {
            return None;
        }
        if !(body[start] == 13u8 && body[start + 1] == 10u8) {
            return None;
        }
        let inner = slice_subrange(body, start + 2, end);
        let mark: [u8; 4] = [13, 10, 13, 10];
        proof {
            assert(mark@ =~= head_end_mark());
            lemma_find_from(inner@, head_end_mark(), 0);
        }
        match find_bytes_from(inner, mark.as_slice(), 0) {
            Some(h) => {
                let content_start = start + 2 + h + 4;
                let content_end = if body[end - 2] == 13u8 && body[end - 1] == 10u8 {
                    end - 2
                } else {
                    end
                };
                if content_start <= content_end {
                    let head = utf8_text_lossy(slice_subrange(body, start + 2, start + 2 + h));
                    let content = slice_to_vec(slice_subrange(body, content_start, content_end));
                    Some((head, content))
                } else {
                    None
                }
            },
            None => None,
        }
    }

    /// Decodes a multipart body. The boundary is the one that the content type
    /// declares, without the two hyphens that precede it in the body.
    pub fn parse(body: &[u8], boundary: &str) -> (r: Result<MultipartFormData, UploadError>)
        ensures
            match r {
                Ok(data) => decoded(body@, boundary@) == Ok::<MultipartView, UploadError>(data@),
                Err(e) => decoded(body@, boundary@) == Err::<MultipartView, UploadError>(e),
            },
    {
        let total = body.len();
        if total == 0 {
            return Err(UploadError::EmptyBody);
        }
        let mut text = String::new();
        text.append("--");
        text.append(boundary);
        let opening = text.as_str().as_bytes_vec();
        text.append("--");
        let closing = text.as_str().as_bytes_vec();
        proof {
            assert(opening@ =~= opening_mark(boundary@));
            assert(closing@ =~= closing_mark(boundary@));
        }
        let width = opening.len();
        let positions = Self::mark_positions_of(body, opening.as_slice());
        let ghost marks = mark_positions(body@, opening_mark(boundary@), 0);
        let mut data = MultipartFormData { fields: StringMap::new(), files: Vec::new() };
        proof {
            assert(data@.files =~= Seq::<UploadedFileView>::empty());
        }
        let n = positions.len();
        let mut i: usize = 0;
        while i < n
            invariant
                n == positions@.len(),
                i <= n,
                total == body@.len(),
                width == opening_mark(boundary@).len(),
                opening@ == opening_mark(boundary@),
                closing@ == closing_mark(boundary@),
                marks == mark_positions(body@, opening_mark(boundary@), 0),
                marks.len() == n,
                forall|k: int| 0 <= k < n ==> positions@[k] as int == #[trigger] marks[k],
                forall|k: int| 0 <= k < n ==> (#[trigger] positions@[k]) + width <= total,
                data@ == collected(body@, boundary@, marks, i as int),
            decreases n - i,
        {
            let start = positions[i] + width;
            let end = if i + 1 < n {
                positions[i + 1]
            } else {
                proof {
                    lemma_find_from(body@, closing@, start as int);
                }
                match find_bytes_from(body, closing.as_slice(), start) {
                    Some(e) => e,
                    None => total,
                }
            };
            proof {
                assert(marks[i as int] == positions@[i as int] as int);
                if i + 1 < n {
                    assert(marks[i + 1] == positions@[i + 1] as int);
                }
            }
            let ghost before = data@;
            match Self::part_between_of(body, start, end) {
                Some((head, content)) => {
                    let ghost part = PartView { head: head@, content: content@ };
                    let name = Self::extract_field_name(head.as_str());
                    if let Some(name) = name {
                        match Self::extract_filename(head.as_str()) {
                            Some(filename) => {
                                let content_type = match Self::extract_content_type(head.as_str()) {
                                    Some(t) => t,
                                    None => "application/octet-stream".to_owned(),
                                };
                                let file = UploadedFile { name, filename, content_type, content };
                                let ghost old_files = data.files@;
                                data.files.push(file);
                                proof {
                                    assert(file_views(data.files@) =~= file_views(old_files).push(
                                        file@,
                                    ));
                                    assert(data@ == before.with_part(part));
                                }
                            },
                            None => {
                                let value = utf8_text_lossy(content.as_slice());
                                data.fields.insert(name, value);
                                proof {
                                    assert(data@ == before.with_part(part));
                                }
                            },
                        }
                    }
                },
                None => {},
            }
            i += 1;
        }
        if data.files.len() == 0 && data.fields.len() == 0 {
            return Err(UploadError::NoParts);
        }
        Ok(data)
    }
}

} // verus!
