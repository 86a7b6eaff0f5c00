//! What a route does with a request.
//!
//! A route never touches the file system or starts a process itself. It says what is
//! to be done as a [`RouteStep`]; the caller does it and hands the outcome to the
//! function that finishes the step.

use crate::cgi::php::{request_environment, PhpExecContext, PhpExecContextView};
use crate::chars::{
    chars_eq, chars_of, decimal_string, starts_with_chars, string_of, strip_leading_chars,
};
use crate::config::config::{Config, GlobalConfig, RouteConfig};
use crate::foreign::{debug_format_list, debug_list, utf8_lossy, utf8_text_lossy};
use crate::http::methods::{Method, MethodView};
use crate::http::request::{Request, RequestView};
use crate::http::response::{Response, ResponseView};
use crate::http::status::StatusCode;
use crate::http::files::{
    entry_views, file_response, listing_response, DirectoryEntry, EntryView, FileServer,
};
use crate::http::upload::{
    accepted_count, limit_of, MultipartFormData, MultipartView, UploadHandler, UploadedFileView,
};
use crate::string_map::{lookup, Pairs, StringMap};
use crate::text::{decimal, starts_with, string_views, strip_leading, text_of, CharClass};
use vstd::prelude::*;
use vstd::slice::slice_subrange;
use vstd::string::{StrSliceExecFns, StringExecFns};
use vstd::utf8::encode_utf8;

verus! {

/// Where a route redirects to, and with which status code.
#[derive(Debug, Clone)]
pub struct Redirect {
    pub url: String,
    pub code: u16,
}

/// The model of a [`Redirect`].
pub struct RedirectView {
    pub url: Seq<char>,
    pub code: u16,
}

/// A route: a path prefix, the methods it allows, and what it serves.
#[derive(Debug, Clone)]
pub struct Route {
    pub path: String,
    pub root: Option<String>,
    pub index: Option<String>,
    pub cgi: Option<StringMap>,
    pub methods: Vec<String>,
    pub directory_listing: bool,
    pub redirect: Option<Redirect>,
    pub client_max_body_size: Option<String>,
    pub config: Config,
}

/// The model of a [`Route`]: its own settings, and the global ones that it reads.
pub struct RouteView {
    pub path: Seq<char>,
    pub root: Option<Seq<char>>,
    pub index: Option<Seq<char>>,
    pub cgi: Option<Pairs>,
    pub methods: Seq<Seq<char>>,
    pub directory_listing: bool,
    pub redirect: Option<RedirectView>,
    pub client_max_body_size: Option<Seq<char>>,
    pub global_cgi: Pairs,
    pub response_format: Option<Seq<char>>,
}

/// The model of an optional string map.
pub open spec fn pairs_of(m: Option<StringMap>) -> Option<Pairs> {
    match m {
        Some(m) => Some(m@),
        None => None,
    }
}

impl View for Route {
    type V = RouteView;

    open spec fn view(&self) -> RouteView {
        RouteView {
            path: self.path@,
            root: text_of(self.root),
            index: text_of(self.index),
            cgi: pairs_of(self.cgi),
            methods: string_views(self.methods@),
            directory_listing: self.directory_listing,
            redirect: match self.redirect {
                Some(r) => Some(RedirectView { url: r.url@, code: r.code }),
                None => None,
            },
            client_max_body_size: text_of(self.client_max_body_size),
            global_cgi: self.config.global.cgi@,
            response_format: text_of(self.config.global.response_format),
        }
    }
}

/// The route that a configured route stands for under the given global settings.
pub open spec fn route_of(rc: RouteConfig, global: GlobalConfig) -> RouteView {
    RouteView {
        path: rc.path@,
        root: text_of(rc.root),
        index: text_of(rc.index),
        cgi: pairs_of(rc.cgi),
        methods: string_views(rc.methods@),
        directory_listing: rc.directory_listing,
        redirect: match rc.redirect {
            Some(r) => Some(RedirectView { url: r.url@, code: r.code }),
            None => None,
        },
        client_max_body_size: text_of(rc.client_max_body_size),
        global_cgi: global.cgi@,
        response_format: text_of(global.response_format),
    }
}

/// A place in the file system: a directory and a path below it. The path never
/// begins with a slash.
#[derive(Debug)]
pub struct FsPath {
    pub base: String,
    pub relative: String,
}

/// The model of an [`FsPath`].
pub struct FsPathView {
    pub base: Seq<char>,
    pub relative: Seq<char>,
}

impl View for FsPath {
    type V = FsPathView;

    open spec fn view(&self) -> FsPathView {
        FsPathView { base: self.base@, relative: self.relative@ }
    }
}

/// What a route asks for in answer to a request.
#[derive(Debug)]
pub enum RouteStep {
    /// The response is ready.
    Done(Response),
    /// The request fails with this status.
    Fail(StatusCode),
    /// Run the interpreter on the script, if the script exists.
    RunScript { context: PhpExecContext, parsed: bool },
    /// Store the files of the upload.
    Upload { handler: UploadHandler, data: MultipartFormData },
    /// Delete the file at this place.
    Delete(FsPath),
    /// Serve the file or directory at this place.
    Serve(FsPath),
}

/// The model of a [`RouteStep`].
pub enum StepView {
    Done(ResponseView),
    Fail(StatusCode),
    RunScript { context: PhpExecContextView, parsed: bool },
    Upload { limit: u64, directory: Seq<char>, data: MultipartView },
    Delete(FsPathView),
    Serve(FsPathView),
}

impl View for RouteStep {
    type V = StepView;

    open spec fn view(&self) -> StepView {
        match self {
            RouteStep::Done(r) => StepView::Done(r@),
            RouteStep::Fail(s) => StepView::Fail(*s),
            RouteStep::RunScript { context, parsed } => StepView::RunScript {
                context: context@,
                parsed: *parsed,
            },
            RouteStep::Upload { handler, data } => StepView::Upload {
                limit: handler.limit(),
                directory: handler.directory(),
                data: data@,
            },
            RouteStep::Delete(p) => StepView::Delete(p@),
            RouteStep::Serve(p) => StepView::Serve(p@),
        }
    }
}

/// What a directory or file turned out to be.
#[derive(Debug, Clone, Copy, PartialEq, Eq, Structural)]
pub struct StaticProbe {
    /// Something exists at the place.
    pub exists: bool,
    /// It is a directory.
    pub is_dir: bool,
    /// It is a directory and the index file of the route exists in it.
    pub index_exists: bool,
}

/// What to serve from a place.
#[derive(Debug)]
pub enum StaticChoice {
    /// Nothing: the request fails with `NotFound`.
    Missing,
    /// The file at the place.
    File,
    /// The index file of this name in the directory at the place.
    Index(String),
    /// A listing of the directory at the place.
    Listing,
}

/// The model of a [`StaticChoice`].
pub enum ChoiceView {
    Missing,
    File,
    Index(Seq<char>),
    Listing,
}

impl View for StaticChoice {
    type V = ChoiceView;

    open spec fn view(&self) -> ChoiceView {
        match self {
            StaticChoice::Missing => ChoiceView::Missing,
            StaticChoice::File => ChoiceView::File,
            StaticChoice::Index(name) => ChoiceView::Index(name@),
            StaticChoice::Listing => ChoiceView::Listing,
        }
    }
}

/// Where the extension of the last component of a path begins: at its last dot.
pub open spec fn extension_start(path: Seq<char>) -> Option<int>
    decreases path.len(),
{
    if path.len() == 0 || path.last() == '/' {
        None
    } else if path.last() == '.' {
        Some(path.len() - 1)
    } else {
        extension_start(path.drop_last())
    }
}

/// The extension of a path, dot included: what follows the last dot of its last
/// component.
pub open spec fn extension_of(path: Seq<char>) -> Option<Seq<char>> {
    match extension_start(path) {
        Some(at) => Some(path.skip(at)),
        None => None,
    }
}

/// The first of two optional values that is there.
pub open spec fn first_of(a: Option<Seq<char>>, b: Option<Seq<char>>) -> Option<Seq<char>> {
    match a {
        Some(_) => a,
        None => b,
    }
}

/// The body that reports a finished upload.
pub open spec fn upload_report(files: Seq<Seq<char>>) -> Seq<char> {
    "{\"success\":true,\"files\":"@ + debug_list(files) + ",\"message\":\"Successfully uploaded "@
        + decimal(files.len()) + " files\"}"@
}

impl RouteView {
    /// Whether the route allows the method of this name.
    pub open spec fn allows(self, method: Seq<char>) -> bool {
        self.methods.contains(method)
    }

    /// The path of a request below the route: the request path without the route
    /// path in front, where it begins with it, and without leading slashes.
    pub open spec fn relative(self, request_path: Seq<char>) -> Seq<char> {
        strip_leading(
            if starts_with(request_path, self.path) {
                request_path.skip(self.path.len() as int)
            } else {
                request_path
            },
            CharClass::Only('/'),
        )
    }

    /// The step of a redirect route: a response that carries the configured code,
    /// whatever it is, and the address in its `location` field. A route that does
    /// not redirect is an internal error.
    pub open spec fn redirect_step(self) -> StepView {
        match self.redirect {
            Some(redirect) => StepView::Done(
                ResponseView::fresh(StatusCode::carrying(redirect.code)).with_header(
                    "location"@,
                    redirect.url,
                ),
            ),
            None => StepView::Fail(StatusCode::InternalServerError),
        }
    }

    /// The script to run under `handler`, or the failure for a route without root.
    pub open spec fn script_step(
        self,
        handler: Option<Seq<char>>,
        path: Seq<char>,
        method: Seq<char>,
        parsed: bool,
    ) -> StepView {
        match handler {
            None => StepView::Fail(StatusCode::NotImplemented),
            Some(bin) => match self.root {
                None => StepView::Fail(StatusCode::InternalServerError),
                Some(root) => StepView::RunScript {
                    context: PhpExecContextView {
                        bin_path: bin,
                        script_path: root + path,
                        envs: request_environment(root + path, method),
                    },
                    parsed: parsed,
                },
            },
        }
    }

    /// The step of a gateway route: the extension of the route path must have an
    /// interpreter, in the mapping of the route or else in the global one. Without
    /// one the step is `NotImplemented`. A route without gateway is an internal
    /// error.
    pub open spec fn cgi_step(self, req: RequestView) -> StepView {
        match self.cgi {
            None => StepView::Fail(StatusCode::InternalServerError),
            Some(cgi) => match extension_of(self.path) {
                None => StepView::Fail(StatusCode::NotImplemented),
                Some(extension) => self.script_step(
                    first_of(lookup(cgi, extension), lookup(self.global_cgi, extension)),
                    self.path,
                    req.method.name(),
                    false,
                ),
            },
        }
    }

    /// Whether a request path names a script: its extension has an interpreter in
    /// the global mapping, or is `.php`.
    pub open spec fn names_script(self, path: Seq<char>) -> bool {
        match extension_of(path) {
            Some(extension) => lookup(self.global_cgi, extension) is Some || extension == ".php"@,
            None => false,
        }
    }

    /// The step of a route that serves files.
    ///
    /// A request path that names a script runs the global interpreter of its
    /// extension, and is `NotImplemented` without one. A `POST` must be an upload. A
    /// `DELETE` deletes and any other method serves the place below the root that
    /// the request path names.
    pub open spec fn static_step(self, req: RequestView) -> StepView {
        if self.names_script(req.path) {
            self.script_step(
                lookup(self.global_cgi, extension_of(req.path)->0),
                req.path,
                req.method.name(),
                true,
            )
        } else if req.method == MethodView::POST {
            if !req.is_upload() {
                StepView::Fail(StatusCode::BadRequest)
            } else if self.root is None {
                StepView::Fail(StatusCode::InternalServerError)
            } else {
                match req.upload() {
                    Err(_) => StepView::Fail(StatusCode::BadRequest),
                    Ok(data) => StepView::Upload {
                        limit: limit_of(
                            match self.client_max_body_size {
                                Some(size) => size,
                                None => "10M"@,
                            },
                        ),
                        directory: self.root->0,
                        data: data,
                    },
                }
            }
        } else if self.root is None {
            StepView::Fail(StatusCode::InternalServerError)
        } else {
            let place = FsPathView { base: self.root->0, relative: self.relative(req.path) };
            if req.method == MethodView::DELETE {
                StepView::Delete(place)
            } else {
                StepView::Serve(place)
            }
        }
    }

    /// The step of the route for a request: a method that the route does not allow
    /// fails; otherwise the route redirects, runs its gateway, or serves files.
    pub open spec fn step(self, req: RequestView) -> StepView {
        if !self.allows(req.method.name()) {
            StepView::Fail(StatusCode::MethodNotAllowed)
        } else if self.redirect is Some {
            self.redirect_step()
        } else if self.cgi is Some {
            self.cgi_step(req)
        } else {
            self.static_step(req)
        }
    }

    /// What to serve from a place that was probed.
    pub open spec fn choice(self, probe: StaticProbe) -> ChoiceView {
        if !probe.exists {
            ChoiceView::Missing
        } else if probe.is_dir {
            if self.index is Some && probe.index_exists {
                ChoiceView::Index(self.index->0)
            } else if self.directory_listing {
                ChoiceView::Listing
            } else {
                ChoiceView::Missing
            }
        } else {
            ChoiceView::File
        }
    }
}

/// The result of a script run. A missing script is `NotFound`; a run that failed is
/// an internal error; otherwise the output, read as text, is the response: parsed for
/// header lines where `parsed` holds, an HTML body as a whole where it does not.
pub open spec fn script_result(exists: bool, output: Option<Seq<u8>>, parsed: bool) -> Result<
    ResponseView,
    StatusCode,
> {
    if !exists {
        Err(StatusCode::NotFound)
    } else {
        match output {
            None => Err(StatusCode::InternalServerError),
            Some(bytes) => Ok(
                if parsed {
                    ResponseView::of_script_output(utf8_lossy(bytes))
                } else {
                    ResponseView::fresh(StatusCode::OK).with_header(
                        "content-type"@,
                        "text/html"@,
                    ).with_body(encode_utf8(utf8_lossy(bytes)))
                },
            ),
        }
    }
}

/// The result of an upload: a JSON report of the saved files, or an internal error
/// where storing failed.
pub open spec fn upload_result(saved: Option<Seq<Seq<char>>>) -> Result<ResponseView, StatusCode> {
    match saved {
        Some(files) => Ok(
            ResponseView::fresh(StatusCode::OK).with_header(
                "content-type"@,
                "application/json"@,
            ).with_body(encode_utf8(upload_report(files))),
        ),
        None => Err(StatusCode::InternalServerError),
    }
}

/// The result of a deletion.
pub open spec fn delete_result(exists: bool, removed: bool) -> Result<ResponseView, StatusCode> {
    if !exists {
        Err(StatusCode::NotFound)
    } else if removed {
        Ok(ResponseView::fresh(StatusCode::OK).with_body(encode_utf8("File deleted successfully"@)))
    } else {
        Err(StatusCode::InternalServerError)
    }
}

/// What was found or done outside for a step.
#[derive(Debug)]
pub enum Outcome {
    /// Nothing: the step asked for nothing.
    Nothing,
    /// Whether the script was there, and what the interpreter wrote; `None` where
    /// it could not be run.
    Script { exists: bool, output: Option<Vec<u8>> },
    /// Whether the directory was made and every planned file written.
    Stored(bool),
    /// Whether the file was there, and whether it could be deleted.
    Deleted { exists: bool, removed: bool },
    /// What stands at the place; for a file or an index file the extension of its
    /// name and its content, `None` where it could not be read; for a directory to
    /// list its entries, `None` where they could not be read.
    Found {
        probe: StaticProbe,
        extension: Option<String>,
        content: Option<Vec<u8>>,
        entries: Option<Vec<DirectoryEntry>>,
    },
}

/// The model of an [`Outcome`].
pub enum OutcomeView {
    Nothing,
    Script { exists: bool, output: Option<Seq<u8>> },
    Stored(bool),
    Deleted { exists: bool, removed: bool },
    Found {
        probe: StaticProbe,
        extension: Option<Seq<char>>,
        content: Option<Seq<u8>>,
        entries: Option<Seq<EntryView>>,
    },
}

/// The model of optional bytes.
pub open spec fn bytes_of(b: Option<Vec<u8>>) -> Option<Seq<u8>> {
    match b {
        Some(v) => Some(v@),
        None => None,
    }
}

impl View for Outcome {
    type V = OutcomeView;

    open spec fn view(&self) -> OutcomeView {
        match self {
            Outcome::Nothing => OutcomeView::Nothing,
            Outcome::Script { exists, output } => OutcomeView::Script {
                exists: *exists,
                output: bytes_of(*output),
            },
            Outcome::Stored(stored) => OutcomeView::Stored(*stored),
            Outcome::Deleted { exists, removed } => OutcomeView::Deleted {
                exists: *exists,
                removed: *removed,
            },
            Outcome::Found { probe, extension, content, entries } => OutcomeView::Found {
                probe: *probe,
                extension: text_of(*extension),
                content: bytes_of(*content),
                entries: match entries {
                    Some(e) => Some(entry_views(e@)),
                    None => None,
                },
            },
        }
    }
}

/// The names under which the files of an upload were sent.
pub open spec fn file_names(files: Seq<UploadedFileView>) -> Seq<Seq<char>> {
    Seq::new(files.len(), |i: int| files[i].filename)
}

impl RouteView {
    /// The result of a step, given what was found or done outside.
    ///
    /// A script, an upload and a deletion end as their own results say. An upload
    /// fails where a file is over the limit or storing failed. A place to serve is
    /// not found, or served as a file, or listed; a listing that could not be read
    /// is an internal error, though as a response. An outcome that does not belong
    /// to the step is an internal error.
    pub open spec fn finished(self, step: StepView, outcome: OutcomeView) -> Result<
        ResponseView,
        StatusCode,
    > {
        match step {
            StepView::Done(response) => Ok(response),
            StepView::Fail(status) => Err(status),
            StepView::RunScript { context, parsed } => match outcome {
                OutcomeView::Script { exists, output } => script_result(exists, output, parsed),
                _ => Err(StatusCode::InternalServerError),
            },
            StepView::Upload { limit, directory, data } => match outcome {
                OutcomeView::Stored(stored) => upload_result(
                    if stored && accepted_count(data.files, limit) == data.files.len() {
                        Some(file_names(data.files))
                    } else {
                        None
                    },
                ),
                _ => Err(StatusCode::InternalServerError),
            },
            StepView::Delete(_) => match outcome {
                OutcomeView::Deleted { exists, removed } => delete_result(exists, removed),
                _ => Err(StatusCode::InternalServerError),
            },
            StepView::Serve(_) => match outcome {
                OutcomeView::Found { probe, extension, content, entries } => match self.choice(
                    probe,
                ) {
                    ChoiceView::Missing => Err(StatusCode::NotFound),
                    ChoiceView::File => Ok(file_response(extension, content)),
                    ChoiceView::Index(_) => Ok(file_response(extension, content)),
                    ChoiceView::Listing => Ok(
                        match entries {
                            Some(e) => listing_response(e, self.path, self.response_format),
                            None => ResponseView::fresh(StatusCode::InternalServerError),
                        },
                    ),
                },
                _ => Err(StatusCode::InternalServerError),
            },
        }
    }
}

/// A regular file that was read is served with status 200, its content type, its
/// length and its bytes.
pub proof fn lemma_file_is_served(
    route: RouteView,
    place: FsPathView,
    probe: StaticProbe,
    extension: Option<Seq<char>>,
    content: Seq<u8>,
    entries: Option<Seq<EntryView>>,
)
    requires
        probe.exists,
        !probe.is_dir,
    ensures
        route.finished(
            StepView::Serve(place),
            OutcomeView::Found { probe, extension, content: Some(content), entries },
        ) matches Ok(response) && response.status == StatusCode::OK && response.body == content
            && lookup(response.headers, "content-length"@) == Some(decimal(content.len()))
            && lookup(response.headers, "content-type"@) == Some(
            crate::http::files::type_of_file(extension),
        ),
{
    reveal_strlit("content-type");
    reveal_strlit("content-length");
    assert("content-type"@.len() == 12 && "content-length"@.len() == 14);
    let typed = ResponseView::fresh(StatusCode::OK).with_header(
        "content-type"@,
        crate::http::files::type_of_file(extension),
    );
    crate::string_map::lemma_lookup_upsert_same(
        ResponseView::fresh(StatusCode::OK).headers,
        "content-type"@,
        crate::http::files::type_of_file(extension),
    );
    crate::string_map::lemma_lookup_upsert_same(
        typed.headers,
        "content-length"@,
        decimal(content.len()),
    );
    crate::string_map::lemma_lookup_upsert_other(
        typed.headers,
        "content-length"@,
        decimal(content.len()),
        "content-type"@,
    );
}

/// An upload whose files are all within the limit and were stored is answered with
/// status 200 and the report of their names, its length declared.
pub proof fn lemma_stored_upload_is_reported(
    route: RouteView,
    limit: u64,
    directory: Seq<char>,
    data: MultipartView,
)
    requires
        accepted_count(data.files, limit) == data.files.len(),
    ensures
        route.finished(
            StepView::Upload { limit, directory, data },
            OutcomeView::Stored(true),
        ) matches Ok(response) && response.status == StatusCode::OK && response.body
            == encode_utf8(upload_report(file_names(data.files))) && lookup(
            response.headers,
            "content-length"@,
        ) == Some(decimal(response.body.len())),
{
    let typed = ResponseView::fresh(StatusCode::OK).with_header(
        "content-type"@,
        "application/json"@,
    );
    crate::http::response::lemma_content_length(
        typed,
        encode_utf8(upload_report(file_names(data.files))),
    );
}

/// An upload with a file over the limit fails with an internal error, whatever was
/// stored.
pub proof fn lemma_oversized_upload_fails(
    route: RouteView,
    limit: u64,
    directory: Seq<char>,
    data: MultipartView,
    stored: bool,
)
    requires
        accepted_count(data.files, limit) < data.files.len(),
    ensures
        route.finished(StepView::Upload { limit, directory, data }, OutcomeView::Stored(stored))
            == Err::<ResponseView, StatusCode>(StatusCode::InternalServerError),
{
}

/// A file whose content is longer than the limit makes the upload one with a file
/// over the limit.
pub proof fn lemma_long_file_is_over_the_limit(files: Seq<UploadedFileView>, limit: u64, at: int)
    requires
        0 <= at < files.len(),
        files[at].content.len() > limit,
    ensures
        accepted_count(files, limit) < files.len(),
    decreases files.len(),
{
    if at > 0 && files[0].content.len() <= limit {
        lemma_long_file_is_over_the_limit(files.drop_first(), limit, at - 1);
    }
}

/// The model of a result that holds a response.
pub open spec fn result_view(r: Result<Response, StatusCode>) -> Result<ResponseView, StatusCode> {
    match r {
        Ok(response) => Ok(response@),
        Err(status) => Err(status),
    }
}

/// The extension of a path, dot included.
pub fn extension(path: &str) -> (r: Option<String>)
    ensures
        text_of(r) == extension_of(path@),
{
    let p = chars_of(path);
    let n = p.len();
    let mut i: usize = n;
    proof {
        assert(p@.take(n as int) =~= p@);
    }
    while i > 0
        invariant
            n == p@.len(),
            p@ == path@,
            i <= n,
            extension_start(p@) == extension_start(p@.take(i as int)),
        decreases i,
    {
        let c = p[i - 1];
        proof {
            assert(p@.take(i as int).last() == c);
            assert(p@.take(i as int).drop_last() =~= p@.take(i - 1));
        }
        if c == '/' {
            return None;
        }
        if c == '.' {
            let tail = slice_subrange(p.as_slice(), i - 1, n);
            proof {
                assert(tail@ =~= p@.skip(i - 1));
            }
            return Some(string_of(tail));
        }
        i -= 1;
    }
    None
}

/// Where a route redirects, the step is a response that carries the configured code
/// and gives the address in its `location` field.
pub proof fn lemma_redirect_carries_code(route: RouteView)
    requires
        route.redirect is Some,
    ensures
        route.redirect_step() matches StepView::Done(response) && response.status.code()
            == route.redirect->0.code && lookup(response.headers, "location"@) == Some(
            route.redirect->0.url,
        ) && response.body.len() == 0,
{
    crate::string_map::lemma_lookup_upsert_same(
        crate::http::response::default_headers(),
        "location"@,
        route.redirect->0.url,
    );
}

/// A copy of an optional string.
pub fn copy_text(text: &Option<String>) -> (r: Option<String>)
    ensures
        text_of(r) == text_of(*text),
{
    match text {
        Some(t) => Some(t.clone()),
        None => None,
    }
}

/// A copy of a list of strings.
pub fn copy_strings(items: &Vec<String>) -> (r: Vec<String>)
    ensures
        string_views(r@) == string_views(items@),
{
    let mut r: Vec<String> = Vec::new();
    let n = items.len();
    let mut i: usize = 0;
    while i < n
        invariant
            n == items@.len(),
            i <= n,
            r@.len() == i,
            forall|k: int| 0 <= k < i ==> (#[trigger] r@[k])@ == items@[k]@,
        decreases n - i,
    {
        r.push(items[i].clone());
        i += 1;
    }
    proof {
        assert(string_views(r@) =~= string_views(items@));
    }
    r
}

impl Route {
    /// The route that a configured route stands for, under the global settings of
    /// `config`.
    pub fn from_config(route_config: &RouteConfig, config: &Config) -> (r: Route)
        ensures
            r@ == route_of(*route_config, config.global),
    {
        let global = GlobalConfig {
            client_max_body_size: copy_text(&config.global.client_max_body_size),
            response_format: copy_text(&config.global.response_format),
            cgi: config.global.cgi.duplicate(),
            sessions: config.global.sessions.clone(),
        };
        Route {
            path: route_config.path.clone(),
            root: copy_text(&route_config.root),
            index: copy_text(&route_config.index),
            cgi: match &route_config.cgi {
                Some(m) => Some(m.duplicate()),
                None => None,
            },
            methods: copy_strings(&route_config.methods),
            directory_listing: route_config.directory_listing,
            redirect: match &route_config.redirect {
                Some(r) => Some(Redirect { url: r.url.clone(), code: r.code }),
                None => None,
            },
            client_max_body_size: copy_text(&route_config.client_max_body_size),
            config: Config { global, servers: config.servers.clone() },
        }
    }

    /// Whether the route allows the method of this name.
    pub fn allows(&self, method: &str) -> (r: bool)
        ensures
            r == self@.allows(method@),
    {
        let wanted = method.to_owned();
        let n = self.methods.len();
        let mut i: usize = 0;
        while i < n
            invariant
                n == self.methods@.len(),
                i <= n,
                wanted@ == method@,
                forall|k: int| 0 <= k < i ==> string_views(self.methods@)[k] != method@,
            decreases n - i,
        {
            if self.methods[i] == wanted {
                proof {
                    assert(string_views(self.methods@)[i as int] == method@);
                }
                return true;
            }
            i += 1;
        }
        false
    }

    /// The step of the route for a request.
    pub fn handle(&self, request: &Request) -> (step: RouteStep)
        ensures
            step@ == self@.step(request@),
    {
        if !self.allows(request.method().as_str()) {
            return RouteStep::Fail(StatusCode::MethodNotAllowed);
        }
        if self.redirect.is_some() {
            self.handle_redirect()
        } else if self.cgi.is_some() {
            self.handle_cgi(request)
        } else {
            self.handle_static(request)
        }
    }

    /// The step of a redirect route.
    pub fn handle_redirect(&self) -> (step: RouteStep)
        ensures
            step@ == self@.redirect_step(),
    {
        match &self.redirect {
            Some(redirect) => {
                let mut response = Response::new(StatusCode::with_number(redirect.code));
                response.set_field("location", redirect.url.as_str());
                RouteStep::Done(response)
            },
            None => RouteStep::Fail(StatusCode::InternalServerError),
        }
    }

    fn script_step(&self, handler: Option<&String>, path: &str, method: &str, parsed: bool) -> (step:
        RouteStep)
        ensures
            step@ == self@.script_step(
                match handler {
                    Some(h) => Some(h@),
                    None => None,
                },
                path@,
                method@,
                parsed,
            ),
    {
        let bin = match handler {
            Some(h) => h.clone(),
            None => {
                return RouteStep::Fail(StatusCode::NotImplemented);
            },
        };
        let mut script = match &self.root {
            Some(root) => root.clone(),
            None => {
                return RouteStep::Fail(StatusCode::InternalServerError);
            },
        };
        script.append(path);
        let mut context = PhpExecContext::new(bin, script);
        context.add_env("REQUEST_METHOD", method);
        RouteStep::RunScript { context, parsed }
    }

    /// The step of a gateway route.
    pub fn handle_cgi(&self, request: &Request) -> (step: RouteStep)
        ensures
            step@ == self@.cgi_step(request@),
    {
        let cgi = match &self.cgi {
            Some(cgi) => cgi,
            None => {
                return RouteStep::Fail(StatusCode::InternalServerError);
            },
        };
        let extension = match extension(self.path.as_str()) {
            Some(extension) => extension,
            None => {
                return RouteStep::Fail(StatusCode::NotImplemented);
            },
        };
        let handler = match cgi.get(extension.as_str()) {
            Some(h) => Some(h),
            None => self.config.global.cgi.get(extension.as_str()),
        };
        self.script_step(handler, self.path.as_str(), request.method().as_str(), false)
    }

    fn relative_of(&self, request_path: &str) -> (r: String)
        ensures
            r@ == self@.relative(request_path@),
    {
        let p = chars_of(request_path);
        let own = chars_of(self.path.as_str());
        let total = p.len();
        let below = if starts_with_chars(p.as_slice(), own.as_slice()) {
            let rest = slice_subrange(p.as_slice(), own.len(), total);
            proof {
                assert(rest@ =~= request_path@.skip(self.path@.len() as int));
            }
            rest
        } else {
            p.as_slice()
        };
        string_of(strip_leading_chars(below, CharClass::Only('/')))
    }

    /// The step of a route that serves files.
    pub fn handle_static(&self, request: &Request) -> (step: RouteStep)
        ensures
            step@ == self@.static_step(request@),
    {
        if let Some(extension) = extension(request.path()) {
            let handler = self.config.global.cgi.get(extension.as_str());
            let is_php = chars_eq(
                chars_of(extension.as_str()).as_slice(),
                chars_of(".php").as_slice(),
            );
            if handler.is_some() || is_php {
                return self.script_step(
                    handler,
                    request.path(),
                    request.method().as_str(),
                    true,
                );
            }
        }
        match request.method() {
            Method::POST => {
                if !request.has_file_upload() {
                    return RouteStep::Fail(StatusCode::BadRequest);
                }
                let base = match &self.root {
                    Some(root) => root,
                    None => {
                        return RouteStep::Fail(StatusCode::InternalServerError);
                    },
                };
                let data = match request.parse_multipart_form_data() {
                    Ok(data) => data,
                    Err(_) => {
                        return RouteStep::Fail(StatusCode::BadRequest);
                    },
                };
                let handler = match &self.client_max_body_size {
                    Some(size) => UploadHandler::new(size.as_str(), base.as_str()),
                    None => UploadHandler::new("10M", base.as_str()),
                };
                RouteStep::Upload { handler, data }
            },
            Method::DELETE => {
                match &self.root {
                    Some(root) => RouteStep::Delete(
                        FsPath { base: root.clone(), relative: self.relative_of(request.path()) },
                    ),
                    None => RouteStep::Fail(StatusCode::InternalServerError),
                }
            },
            _ => {
                match &self.root {
                    Some(root) => RouteStep::Serve(
                        FsPath { base: root.clone(), relative: self.relative_of(request.path()) },
                    ),
                    None => RouteStep::Fail(StatusCode::InternalServerError),
                }
            },
        }
    }

    /// The result of a script run: `exists` says whether the script was there, and
    /// `output` holds what the interpreter wrote, or `None` where it could not be run.
    pub fn finish_script(exists: bool, output: Option<&[u8]>, parsed: bool) -> (r: Result<
        Response,
        StatusCode,
    >)
        ensures
            result_view(r) == script_result(
                exists,
                match output {
                    Some(bytes) => Some(bytes@),
                    None => None,
                },
                parsed,
            ),
    {
        if !exists {
            return Err(StatusCode::NotFound);
        }
        match output {
            None => Err(StatusCode::InternalServerError),
            Some(bytes) => {
                let text = utf8_text_lossy(bytes);
                if parsed {
                    Ok(Response::from_script_output(text.as_str()))
                } else {
                    let mut response = Response::new(StatusCode::OK);
                    response.set_field("content-type", "text/html");
                    response.set_body(text.as_str().as_bytes_vec());
                    Ok(response)
                }
            },
        }
    }

    /// The result of an upload: `saved` holds the names of the stored files, or
    /// `None` where storing failed.
    pub fn finish_upload(saved: Option<&Vec<String>>) -> (r: Result<Response, StatusCode>)
        ensures
            result_view(r) == upload_result(
                match saved {
                    Some(files) => Some(string_views(files@)),
                    None => None,
                },
            ),
    {
        match saved {
            Some(files) => {
                let mut response = Response::new(StatusCode::OK);
                response.set_field("content-type", "application/json");
                let mut text = String::new();
                text.append("{\"success\":true,\"files\":");
                text.append(debug_format_list(files).as_str());
                text.append(",\"message\":\"Successfully uploaded ");
                text.append(decimal_string(files.len() as u64).as_str());
                text.append(" files\"}");
                proof {
                    assert(text@ =~= upload_report(string_views(files@)));
                }
                response.set_body(text.as_str().as_bytes_vec());
                Ok(response)
            },
            None => Err(StatusCode::InternalServerError),
        }
    }

    /// The result of a deletion: `exists` says whether the file was there, `removed`
    /// whether it could be deleted.
    pub fn finish_delete(exists: bool, removed: bool) -> (r: Result<Response, StatusCode>)
        ensures
            result_view(r) == delete_result(exists, removed),
    {
        if !exists {
            return Err(StatusCode::NotFound);
        }
        if removed {
            let mut response = Response::new(StatusCode::OK);
            response.set_body("File deleted successfully".as_bytes_vec());
            Ok(response)
        } else {
            Err(StatusCode::InternalServerError)
        }
    }

    /// The result of a step, given what was found or done outside.
    pub fn finish(&self, step: RouteStep, outcome: Outcome) -> (r: Result<Response, StatusCode>)
        ensures
            result_view(r) == self@.finished(step@, outcome@),
    {
        match step {
            RouteStep::Done(response) => Ok(response),
            RouteStep::Fail(status) => Err(status),
            RouteStep::RunScript { context, parsed } => match outcome {
                Outcome::Script { exists, output } => match output {
                    Some(bytes) => Self::finish_script(exists, Some(bytes.as_slice()), parsed),
                    None => Self::finish_script(exists, None, parsed),
                },
                _ => Err(StatusCode::InternalServerError),
            },
            RouteStep::Upload { handler, data } => match outcome {
                Outcome::Stored(stored) => {
                    let plan = handler.handle_upload(&data);
                    if !stored || plan.rejected {
                        return Self::finish_upload(None);
                    }
                    let mut names: Vec<String> = Vec::new();
                    let n = plan.writes.len();
                    let mut i: usize = 0;
                    while i < n
                        invariant
                            n == plan.writes@.len(),
                            n == data@.files.len(),
                            i <= n,
                            names@.len() == i,
                            forall|k: int|
                                0 <= k < n ==> (#[trigger] plan.writes@[k]).filename@
                                    == data@.files[k].filename,
                            forall|k: int|
                                0 <= k < i ==> (#[trigger] names@[k])@ == data@.files[k].filename,
                        decreases n - i,
                    {
                        names.push(plan.writes[i].filename.clone());
                        i += 1;
                    }
                    proof {
                        assert(string_views(names@) =~= file_names(data@.files));
                    }
                    Self::finish_upload(Some(&names))
                },
                _ => Err(StatusCode::InternalServerError),
            },
            RouteStep::Delete(_) => match outcome {
                Outcome::Deleted { exists, removed } => Self::finish_delete(exists, removed),
                _ => Err(StatusCode::InternalServerError),
            },
            RouteStep::Serve(_) => match outcome {
                Outcome::Found { probe, extension, content, entries } => {
                    match self.choose_static(probe) {
                        StaticChoice::Missing => Err(StatusCode::NotFound),
                        StaticChoice::Listing => match entries {
                            Some(listed) => Ok(
                                FileServer::serve_directory_listing(
                                    &listed,
                                    self.path.as_str(),
                                    match &self.config.global.response_format {
                                        Some(f) => Some(f.as_str()),
                                        None => None,
                                    },
                                ),
                            ),
                            None => Ok(Response::new(StatusCode::InternalServerError)),
                        },
                        _ => Ok(
                            FileServer::serve_file(
                                match &extension {
                                    Some(e) => Some(e.as_str()),
                                    None => None,
                                },
                                content,
                            ),
                        ),
                    }
                },
                _ => Err(StatusCode::InternalServerError),
            },
        }
    }

    /// What to serve from the place of a `Serve` step, once it was probed.
    pub fn choose_static(&self, probe: StaticProbe) -> (c: StaticChoice)
        ensures
            c@ == self@.choice(probe),
    {
        if !probe.exists {
            return StaticChoice::Missing;
        }
        if probe.is_dir {
            if let Some(index) = &self.index {
                if probe.index_exists {
                    return StaticChoice::Index(index.clone());
                }
            }
            if self.directory_listing {
                return StaticChoice::Listing;
            }
            return StaticChoice::Missing;
        }
        StaticChoice::File
    }
}

} // verus!
