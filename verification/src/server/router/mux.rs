//! Selection of the route that answers a request, and the rendering of errors.

use crate::chars::{
    chars_eq, chars_of, starts_with_chars, string_of, strip_leading_chars, strip_trailing_chars,
};
use crate::config::config::{Config, ServerConfig};
use crate::http::request::Request;
use crate::http::response::{Response, ResponseView};
use crate::http::status::StatusCode;
use crate::server::router::route::{
    route_of, FsPath, FsPathView, Outcome, OutcomeView, Route, RouteStep, RouteView,
};
use crate::string_map::{lookup, Pairs, StringMap};
use crate::text::{decimal, starts_with, strip_leading, strip_trailing, CharClass};
use vstd::prelude::*;
use vstd::slice::slice_subrange;
use vstd::string::StringExecFns;
use vstd::utf8::encode_utf8;

verus! {

/// The models of a list of routes.
pub open spec fn route_views(routes: Seq<Route>) -> Seq<RouteView> {
    Seq::new(routes.len(), |i: int| routes[i]@)
}

/// A path without trailing slashes.
pub open spec fn without_trailing_slash(path: Seq<char>) -> Seq<char> {
    strip_trailing(path, CharClass::Only('/'))
}

/// Whether a route matches a request path, both taken without trailing slashes.
///
/// Equal paths match. A route that has a root also matches every path that begins
/// with its own, unless its own is empty, and matches any path that names a regular
/// file below its root (`is_file`). A route without root also matches its own path
/// followed by one slash.
pub open spec fn path_matches(route: RouteView, p: Seq<char>, is_file: bool) -> bool {
    let r = without_trailing_slash(route.path);
    ||| p == r
    ||| (r.len() > 0 && route.root is Some && (starts_with(p, r + "/"@) || starts_with(p, r)))
    ||| (r.len() > 0 && route.root is None && p == r + "/"@)
    ||| (route.root is Some && is_file)
}

/// What the probe of route `i` found; nothing where it is missing.
pub open spec fn probe_at(is_file: Seq<bool>, i: int) -> bool {
    0 <= i < is_file.len() && is_file[i]
}

/// Route `i` matches the path and allows the method.
pub open spec fn eligible(
    routes: Seq<RouteView>,
    is_file: Seq<bool>,
    p: Seq<char>,
    method: Seq<char>,
    i: int,
) -> bool {
    &&& 0 <= i < routes.len()
    &&& path_matches(routes[i], p, probe_at(is_file, i))
    &&& routes[i].allows(method)
}

/// The length of a route path in bytes.
pub open spec fn path_weight(route: RouteView) -> nat {
    encode_utf8(route.path).len()
}

/// Route `i` is chosen over route `j`: its path is longer, or as long and it comes
/// first.
pub open spec fn chosen_over(routes: Seq<RouteView>, i: int, j: int) -> bool {
    ||| path_weight(routes[i]) > path_weight(routes[j])
    ||| (path_weight(routes[i]) == path_weight(routes[j]) && i <= j)
}

/// Some route matches the path.
pub open spec fn some_path_matches(routes: Seq<RouteView>, is_file: Seq<bool>, p: Seq<char>)
    -> bool {
    exists|j: int| 0 <= j < routes.len() && path_matches(#[trigger] routes[j], p, probe_at(is_file, j))
}

/// `r` is the verdict on a request with path `p` (without trailing slashes) and the
/// given method: the eligible route that is chosen over every other eligible one;
/// and where none is eligible, `MethodNotAllowed` if some route matches the path and
/// `NotFound` if none does.
pub open spec fn is_verdict(
    routes: Seq<RouteView>,
    is_file: Seq<bool>,
    p: Seq<char>,
    method: Seq<char>,
    r: Result<usize, StatusCode>,
) -> bool {
    match r {
        Ok(i) => {
            &&& eligible(routes, is_file, p, method, i as int)
            &&& forall|j: int| #[trigger]
                eligible(routes, is_file, p, method, j) ==> chosen_over(routes, i as int, j)
        },
        Err(status) => {
            &&& forall|j: int| !#[trigger] eligible(routes, is_file, p, method, j)
            &&& status == if some_path_matches(routes, is_file, p) {
                StatusCode::MethodNotAllowed
            } else {
                StatusCode::NotFound
            }
        },
    }
}

/// There is one verdict only.
pub proof fn lemma_verdict_unique(
    routes: Seq<RouteView>,
    is_file: Seq<bool>,
    p: Seq<char>,
    method: Seq<char>,
    a: Result<usize, StatusCode>,
    b: Result<usize, StatusCode>,
)
    requires
        is_verdict(routes, is_file, p, method, a),
        is_verdict(routes, is_file, p, method, b),
    ensures
        a == b,
{
    match (a, b) {
        (Ok(i), Ok(j)) => {
            assert(chosen_over(routes, i as int, j as int));
            assert(chosen_over(routes, j as int, i as int));
        },
        (Ok(i), Err(_)) => {
            assert(eligible(routes, is_file, p, method, i as int));
        },
        (Err(_), Ok(j)) => {
            assert(eligible(routes, is_file, p, method, j as int));
        },
        (Err(_), Err(_)) => {},
    }
}

/// A request whose path no route matches is not found.
pub proof fn lemma_path_mismatch_is_not_found(
    routes: Seq<RouteView>,
    is_file: Seq<bool>,
    p: Seq<char>,
    method: Seq<char>,
    r: Result<usize, StatusCode>,
)
    requires
        is_verdict(routes, is_file, p, method, r),
        !some_path_matches(routes, is_file, p),
    ensures
        r == Err::<usize, StatusCode>(StatusCode::NotFound),
{
    if let Ok(i) = r {
        assert(path_matches(routes[i as int], p, probe_at(is_file, i as int)));
    }
}

/// A request whose path is matched, but whose method none of the matching routes
/// allows, is answered with `MethodNotAllowed`.
pub proof fn lemma_method_outside_set_is_not_allowed(
    routes: Seq<RouteView>,
    is_file: Seq<bool>,
    p: Seq<char>,
    method: Seq<char>,
    r: Result<usize, StatusCode>,
)
    requires
        is_verdict(routes, is_file, p, method, r),
        some_path_matches(routes, is_file, p),
        forall|j: int|
            0 <= j < routes.len() && path_matches(#[trigger] routes[j], p, probe_at(is_file, j))
                ==> !routes[j].allows(method),
    ensures
        r == Err::<usize, StatusCode>(StatusCode::MethodNotAllowed),
{
    if let Ok(i) = r {
        assert(eligible(routes, is_file, p, method, i as int));
    }
}

/// The path of a configured error page, without a leading `./`.
pub open spec fn page_path(path: Seq<char>) -> Seq<char> {
    if starts_with(path, "./"@) {
        path.skip("./"@.len() as int)
    } else {
        path
    }
}

/// The response for an error status. Where a page is configured for the status, the
/// body is the content of the page, or a notice if it could not be read; otherwise
/// the body is the reason phrase. The content type is HTML.
pub open spec fn error_response(pages: Pairs, status: StatusCode, content: Option<Seq<char>>)
    -> ResponseView {
    let body = match lookup(pages, decimal(status.code() as nat)) {
        Some(_) => match content {
            Some(c) => c,
            None => "Error page not found"@,
        },
        None => status.reason(),
    };
    ResponseView::fresh(status).with_body(encode_utf8(body)).with_header(
        "content-type"@,
        "text/html"@,
    )
}

/// The response for an error declares the length of its body.
pub proof fn lemma_error_response_declares_length(
    pages: Pairs,
    status: StatusCode,
    content: Option<Seq<char>>,
)
    ensures
        lookup(error_response(pages, status, content).headers, "content-length"@) == Some(
            decimal(error_response(pages, status, content).body.len()),
        ),
{
    reveal_strlit("content-type");
    reveal_strlit("content-length");
    assert("content-type"@.len() == 12 && "content-length"@.len() == 14);
    let body = match lookup(pages, decimal(status.code() as nat)) {
        Some(_) => match content {
            Some(c) => c,
            None => "Error page not found"@,
        },
        None => status.reason(),
    };
    let with_body = ResponseView::fresh(status).with_body(encode_utf8(body));
    crate::http::response::lemma_content_length(ResponseView::fresh(status), encode_utf8(body));
    crate::string_map::lemma_lookup_upsert_other(
        with_body.headers,
        "content-type"@,
        "text/html"@,
        "content-length"@,
    );
}

/// What the multiplexer asks for in answer to a request.
#[derive(Debug)]
pub enum MuxStep {
    /// The route at `index` was selected and asks for `step`.
    Route { index: usize, step: RouteStep },
    /// No route was selected: the request fails with this status.
    Error(StatusCode),
}

/// Routes requests to the routes of one virtual host, and renders its errors.
#[derive(Debug, Clone)]
pub struct Mux {
    pub routes: Vec<Route>,
    pub config: ServerConfig,
}

impl Mux {
    /// The multiplexer of a virtual host: one route for each configured route, in
    /// order.
    pub fn new(config: ServerConfig, global_cfg: Config) -> (mux: Mux)
        ensures
            mux.config == config,
            mux.routes@.len() == config.routes@.len(),
            forall|i: int|
                0 <= i < mux.routes@.len() ==> (#[trigger] mux.routes@[i])@ == route_of(
                    config.routes@[i],
                    global_cfg.global,
                ),
    {
        let mut routes: Vec<Route> = Vec::new();
        let n = config.routes.len();
        let mut i: usize = 0;
        while i < n
            invariant
                n == config.routes@.len(),
                i <= n,
                routes@.len() == i,
                forall|k: int|
                    0 <= k < i ==> (#[trigger] routes@[k])@ == route_of(
                        config.routes@[k],
                        global_cfg.global,
                    ),
            decreases n - i,
        {
            routes.push(Route::from_config(&config.routes[i], &global_cfg));
            i += 1;
        }
        Mux { routes, config }
    }

    /// Adds a route after the others.
    pub fn add_route(&mut self, route: Route)
        ensures
            final(self).routes@ == old(self).routes@.push(route),
            final(self).config == old(self).config,
    {
        self.routes.push(route);
    }

    /// The path of the page that is configured for a status, if one is.
    pub fn error_page(&self, status: StatusCode) -> (r: Option<String>)
        ensures
            crate::text::text_of(r) == match lookup(
                self.config.error_pages.pages@,
                decimal(status.code() as nat),
            ) {
                Some(path) => Some(page_path(path)),
                None => None,
            },
    {
        match self.config.error_pages.pages.get(status.to_string().as_str()) {
            Some(path) => {
                let p = chars_of(path.as_str());
                let prefix = chars_of("./");
                let total = p.len();
                if starts_with_chars(p.as_slice(), prefix.as_slice()) {
                    let rest = slice_subrange(p.as_slice(), prefix.len(), total);
                    proof {
                        assert(rest@ =~= path@.skip("./"@.len() as int));
                    }
                    Some(string_of(rest))
                } else {
                    Some(path.clone())
                }
            },
            None => None,
        }
    }

    /// The response for an error status. `content` is the content of the configured
    /// page, or `None` where there is no page or it could not be read.
    pub fn handle_error(&self, status: StatusCode, content: Option<&str>) -> (r: Response)
        ensures
            r@ == error_response(
                self.config.error_pages.pages@,
                status,
                match content {
                    Some(c) => Some(c@),
                    None => None,
                },
            ),
    {
        let mut response = Response::new(status);
        match self.config.error_pages.pages.get(status.to_string().as_str()) {
            Some(_) => match content {
                Some(c) => response.set_body_string(c),
                None => response.set_body_string("Error page not found"),
            },
            None => response.set_body_string(status.to_text().as_str()),
        }
        response.set_field("content-type", "text/html");
        response
    }

    /// The configured error pages: for each, the status code as configured and the
    /// path of the file, without a leading `./`.
    pub fn page_files(&self) -> (r: Vec<(String, String)>)
        ensures
            r@.len() == self.config.error_pages.pages@.len(),
            forall|i: int|
                0 <= i < r@.len() ==> (#[trigger] r@[i]).0@ == self.config.error_pages.pages@[i].0
                    && r@[i].1@ == page_path(self.config.error_pages.pages@[i].1),
    {
        let mut r: Vec<(String, String)> = Vec::new();
        let pages = &self.config.error_pages.pages;
        let n = pages.entries.len();
        let prefix = chars_of("./");
        let mut i: usize = 0;
        while i < n
            invariant
                n == pages.entries@.len(),
                pages == &self.config.error_pages.pages,
                prefix@ == "./"@,
                i <= n,
                r@.len() == i,
                forall|k: int|
                    0 <= k < i ==> (#[trigger] r@[k]).0@ == pages@[k].0 && r@[k].1@ == page_path(
                        pages@[k].1,
                    ),
            decreases n - i,
        {
            let path = &pages.entries[i].1;
            let p = chars_of(path.as_str());
            let total = p.len();
            let file = if starts_with_chars(p.as_slice(), prefix.as_slice()) {
                let rest = slice_subrange(p.as_slice(), prefix.len(), total);
                proof {
                    assert(rest@ =~= path@.skip("./"@.len() as int));
                }
                string_of(rest)
            } else {
                path.clone()
            };
            r.push((pages.entries[i].0.clone(), file));
            i += 1;
        }
        r
    }

    /// A request that is answered by a failing step, or that no route takes, gets
    /// an error response in HTML that declares the length of its body.
    pub proof fn lemma_failure_is_rendered(
        &self,
        step: MuxStep,
        outcome: OutcomeView,
        pages: Pairs,
    )
        requires
            self.result_of(step, outcome) is Err,
        ensures
            self.completed(step, outcome, pages).status == self.result_of(step, outcome)->Err_0,
            lookup(self.completed(step, outcome, pages).headers, "content-type"@) == Some(
                "text/html"@,
            ),
            lookup(self.completed(step, outcome, pages).headers, "content-length"@) == Some(
                decimal(self.completed(step, outcome, pages).body.len()),
            ),
    {
        let status = self.result_of(step, outcome)->Err_0;
        let page = lookup(pages, decimal(status.code() as nat));
        lemma_error_response_declares_length(self.config.error_pages.pages@, status, page);
        let body = error_response(self.config.error_pages.pages@, status, page).body;
        crate::string_map::lemma_lookup_upsert_same(
            ResponseView::fresh(status).with_body(body).headers,
            "content-type"@,
            "text/html"@,
        );
    }

    /// The places to probe before a request is routed: for each route with a root,
    /// the path of the request below that root.
    pub fn file_candidates(&self, request: &Request) -> (r: Vec<Option<FsPath>>)
        ensures
            r@.len() == self.routes@.len(),
            forall|i: int|
                0 <= i < r@.len() ==> match (#[trigger] self.routes@[i])@.root {
                    Some(root) => r@[i] matches Some(place) && place@ == (FsPathView {
                        base: root,
                        relative: strip_leading(
                            without_trailing_slash(request@.path),
                            CharClass::Only('/'),
                        ),
                    }),
                    None => r@[i] is None,
                },
    {
        let path = chars_of(request.path());
        let trimmed = strip_trailing_chars(path.as_slice(), CharClass::Only('/'));
        let relative = string_of(strip_leading_chars(trimmed, CharClass::Only('/')));
        let mut r: Vec<Option<FsPath>> = Vec::new();
        let n = self.routes.len();
        let mut i: usize = 0;
        while i < n
            invariant
                n == self.routes@.len(),
                i <= n,
                r@.len() == i,
                relative@ == strip_leading(
                    without_trailing_slash(request@.path),
                    CharClass::Only('/'),
                ),
                forall|k: int|
                    0 <= k < i ==> match (#[trigger] self.routes@[k])@.root {
                        Some(root) => r@[k] matches Some(place) && place@ == (FsPathView {
                            base: root,
                            relative: relative@,
                        }),
                        None => r@[k] is None,
                    },
            decreases n - i,
        {
            let candidate = match &self.routes[i].root {
                Some(root) => Some(FsPath { base: root.clone(), relative: relative.clone() }),
                None => None,
            };
            r.push(candidate);
            i += 1;
        }
        r
    }

    fn route_matches(route: &Route, p: &[char], is_file: bool) -> (r: bool)
        ensures
            r == path_matches(route@, p@, is_file),
    {
        let own = chars_of(route.path.as_str());
        let prefix = strip_trailing_chars(own.as_slice(), CharClass::Only('/'));
        if chars_eq(p, prefix) {
            return true;
        }
        if prefix.len() > 0 {
            let mut with_slash = string_of(prefix);
            with_slash.append("/");
            let with_slash = chars_of(with_slash.as_str());
            if route.root.is_some() {
                if starts_with_chars(p, with_slash.as_slice()) || starts_with_chars(p, prefix) {
                    return true;
                }
            } else if chars_eq(p, with_slash.as_slice()) {
                return true;
            }
        }
        route.root.is_some() && is_file
    }

    /// Selects the route for a request. `is_file[i]` says whether the candidate of
    /// route `i` (see [`Mux::file_candidates`]) is a regular file; a missing entry
    /// counts as `false`.
    pub fn validate_request(&self, request: &Request, is_file: &Vec<bool>) -> (r: Result<
        usize,
        StatusCode,
    >)
        ensures
            is_verdict(
                route_views(self.routes@),
                is_file@,
                without_trailing_slash(request@.path),
                request@.method.name(),
                r,
            ),
            r matches Ok(i) ==> i < self.routes@.len(),
    {
        let path = chars_of(request.path());
        let p = strip_trailing_chars(path.as_slice(), CharClass::Only('/'));
        let method = request.method().as_str();
        let ghost routes = route_views(self.routes@);
        let mut best: Option<usize> = None;
        let mut path_matched = false;
        let n = self.routes.len();
        let mut i: usize = 0;
        while i < n
            invariant
                n == self.routes@.len(),
                i <= n,
                routes == route_views(self.routes@),
                p@ == without_trailing_slash(request@.path),
                method@ == request@.method.name(),
                path_matched == exists|j: int|
                    0 <= j < i && path_matches(#[trigger] routes[j], p@, probe_at(is_file@, j)),
                match best {
                    Some(b) => {
                        &&& b < i
                        &&& eligible(routes, is_file@, p@, method@, b as int)
                        &&& forall|j: int|
                            j < i && #[trigger] eligible(routes, is_file@, p@, method@, j)
                                ==> chosen_over(routes, b as int, j)
                    },
                    None => forall|j: int|
                        j < i ==> !#[trigger] eligible(routes, is_file@, p@, method@, j),
                },
            decreases n - i,
        {
            let route = &self.routes[i];
            let probe = i < is_file.len() && is_file[i];
            proof {
                assert(routes[i as int] == route@);
            }
            if Self::route_matches(route, p, probe) {
                path_matched = true;
                if route.allows(method) {
                    let weight = route.path.as_str().as_bytes().len();
                    let best_weight = match best {
                        Some(b) => self.routes[b].path.as_str().as_bytes().len(),
                        None => 0,
                    };
                    let better = best.is_none() || weight > best_weight;
                    proof {
                        assert(weight == path_weight(routes[i as int]));
                        assert(eligible(routes, is_file@, p@, method@, i as int));
                        if let Some(b) = best {
                            assert(routes[b as int] == self.routes@[b as int]@);
                            assert(best_weight == path_weight(routes[b as int]));
                            if better {
                                assert forall|j: int|
                                    j < i + 1 && #[trigger] eligible(
                                        routes,
                                        is_file@,
                                        p@,
                                        method@,
                                        j,
                                    ) implies chosen_over(routes, i as int, j) by {
                                    if j < i {
                                        assert(chosen_over(routes, b as int, j));
                                    }
                                }
                            } else {
                                assert(chosen_over(routes, b as int, i as int));
                            }
                        }
                    }
                    if better {
                        best = Some(i);
                    }
                }
            }
            i += 1;
        }
        match best {
            Some(b) => Ok(b),
            None => {
                proof {
                    assert(path_matched == some_path_matches(routes, is_file@, p@));
                }
                if path_matched {
                    Err(StatusCode::MethodNotAllowed)
                } else {
                    Err(StatusCode::NotFound)
                }
            },
        }
    }

    /// The response to a request, given the step that routing asked for, what was
    /// found or done outside for it, and the contents of the configured error pages
    /// that could be read, by status code. A step that ends well is its response;
    /// one that fails, and a request that no route takes, is rendered as an error.
    pub fn complete(&self, step: MuxStep, outcome: Outcome, pages: &StringMap) -> (r: Response)
        ensures
            r@ == self.completed(step, outcome@, pages@),
    {
        let result = match step {
            MuxStep::Route { index, step } => {
                if index < self.routes.len() {
                    self.routes[index].finish(step, outcome)
                } else {
                    Err(StatusCode::InternalServerError)
                }
            },
            MuxStep::Error(status) => Err(status),
        };
        match result {
            Ok(response) => response,
            Err(status) => match pages.get(status.to_string().as_str()) {
                Some(content) => self.handle_error(status, Some(content.as_str())),
                None => self.handle_error(status, None),
            },
        }
    }

    /// How a step ends: with its response, or with the status of its failure.
    pub open spec fn result_of(&self, step: MuxStep, outcome: OutcomeView) -> Result<
        ResponseView,
        StatusCode,
    > {
        match step {
            MuxStep::Route { index, step } => if index < self.routes@.len() {
                self.routes@[index as int]@.finished(step@, outcome)
            } else {
                Err(StatusCode::InternalServerError)
            },
            MuxStep::Error(status) => Err(status),
        }
    }

    /// The response to a request whose routing asked for `step`: the response of the
    /// step where it ends well, and otherwise the error response of its status, with
    /// the content of the page of that status where `pages` holds it.
    pub open spec fn completed(&self, step: MuxStep, outcome: OutcomeView, pages: Pairs)
        -> ResponseView {
        match self.result_of(step, outcome) {
            Ok(response) => response,
            Err(status) => error_response(
                self.config.error_pages.pages@,
                status,
                lookup(pages, decimal(status.code() as nat)),
            ),
        }
    }

    /// Routes a request: the selected route and the step that it asks for, or the
    /// status with which the request fails.
    pub fn handle(&self, request: &Request, is_file: &Vec<bool>) -> (r: MuxStep)
        ensures
            match r {
                MuxStep::Route { index, step } => {
                    &&& index < self.routes@.len()
                    &&& is_verdict(
                        route_views(self.routes@),
                        is_file@,
                        without_trailing_slash(request@.path),
                        request@.method.name(),
                        Ok(index),
                    )
                    &&& step@ == self.routes@[index as int]@.step(request@)
                },
                MuxStep::Error(status) => is_verdict(
                    route_views(self.routes@),
                    is_file@,
                    without_trailing_slash(request@.path),
                    request@.method.name(),
                    Err(status),
                ),
            },
    {
        match self.validate_request(request, is_file) {
            Ok(index) => MuxStep::Route { index, step: self.routes[index].handle(request) },
            Err(status) => MuxStep::Error(status),
        }
    }
}

} // verus!
