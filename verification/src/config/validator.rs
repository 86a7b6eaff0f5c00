//! Validation of a configuration before any socket is opened.
//!
//! Hard errors make the start-up fail: a virtual host without host or ports, and a
//! port that is configured twice. Everything else is reported as a warning and the
//! server starts all the same.

use crate::chars::{chars_eq, chars_of, parse_u64_chars, starts_with_chars, trim_chars};
use crate::config::config::{Config, RouteConfig, ServerConfig};
use crate::foreign::{to_uppercase, uppercase};
use crate::text::{parse_u64, starts_with, trim};
use std::collections::HashSet;
use vstd::prelude::*;
use vstd::slice::slice_subrange;

verus! {

broadcast use vstd::std_specs::hash::group_hash_axioms;

/// `std::num::ParseIntError`, which an error for a malformed port carries. Nothing
/// is known of its content.
#[verifier::external_type_specification]
#[verifier::external_body]
pub struct ExParseIntError(std::num::ParseIntError);

/// What can be wrong with a configuration.
#[derive(Debug)]
pub enum ValidatorError {
    NoPortsSpecified,
    InvalidPort(std::num::ParseIntError),
    InvalidDirectoryListingResponseFormat(String),
    UsedPort(u16),
    InvalidServerName(String),
    InvalidCGIPath(String, String),
    InvalidHost(String),
    ErrorPageNotFound(String),
    InvalidRouteMethods(String),
    InvalidRoutePath(String),
    InvalidRoot(String),
    DuplicatePort(u16),
    DuplicateRoute(String),
    InvalidRedirectCode(u16),
    InvalidBodySizeFormat(String),
}

/// Something in a configuration that is reported but does not stop the start-up.
/// Servers, routes, names and methods are given by their position.
#[derive(Debug, Clone, Copy, PartialEq, Eq, Structural)]
pub enum Warning {
    /// The global body size limit is not a number followed by `K`, `M` or `G`.
    GlobalBodySize,
    /// A server name is empty.
    EmptyServerName { server: usize, name: usize },
    /// The body size limit of a server is malformed.
    ServerBodySize { server: usize },
    /// A route path is empty or does not begin with `/`.
    RoutePath { server: usize, route: usize },
    /// A route path occurs a second time in its server.
    DuplicateRoute { server: usize, route: usize },
    /// A route allows no method.
    NoMethods { server: usize, route: usize },
    /// A method of a route is none of the nine that HTTP knows.
    UnknownMethod { server: usize, route: usize, method: usize },
    /// The root of a route neither begins with `./` nor is absolute.
    Root { server: usize, route: usize },
    /// The redirect code of a route is not between 300 and 308.
    RedirectCode { server: usize, route: usize },
    /// The body size limit of a route is malformed.
    RouteBodySize { server: usize, route: usize },
}

/// The methods of RFC 7231 and its common extensions.
pub open spec fn is_http_method(upper: Seq<char>) -> bool {
    ||| upper == "GET"@
    ||| upper == "POST"@
    ||| upper == "PUT"@
    ||| upper == "DELETE"@
    ||| upper == "HEAD"@
    ||| upper == "OPTIONS"@
    ||| upper == "PATCH"@
    ||| upper == "TRACE"@
    ||| upper == "CONNECT"@
}

/// The text that a body size limit is checked in: trimmed and in upper case.
pub open spec fn normal_size(size: Seq<char>) -> Seq<char> {
    uppercase(trim(size))
}

/// A number followed by `K`, `M` or `G`.
pub open spec fn is_size_text(s: Seq<char>) -> bool {
    &&& s.len() > 0
    &&& (s.last() == 'K' || s.last() == 'M' || s.last() == 'G')
    &&& parse_u64(s.drop_last()) is Some
}

/// A body size limit is well formed: trimmed and in upper case it is a number
/// followed by `K`, `M` or `G`.
pub open spec fn well_formed_size(size: Seq<char>) -> bool {
    is_size_text(normal_size(size))
}

/// A root is acceptable: it begins with `./` or with `/`.
pub open spec fn acceptable_root(path: Seq<char>) -> bool {
    starts_with(path, "./"@) || starts_with(path, "/"@)
}

/// A virtual host can be started: it has a host and at least one port.
pub open spec fn startable(server: ServerConfig) -> bool {
    server.host@.len() > 0 && server.ports@.len() > 0
}

/// The ports that are checked for duplicates, in order: those of the virtual hosts
/// that have a host.
pub open spec fn checked_ports(servers: Seq<ServerConfig>) -> Seq<u16>
    decreases servers.len(),
{
    if servers.len() == 0 {
        Seq::empty()
    } else if servers.last().host@.len() > 0 {
        checked_ports(servers.drop_last()) + servers.last().ports@
    } else {
        checked_ports(servers.drop_last())
    }
}

/// The position of the first port that already occurs before it, at or after `from`.
pub open spec fn first_repeat(ports: Seq<u16>, from: int) -> Option<int>
    decreases ports.len() - from,
{
    if from < 0 || from >= ports.len() {
        None
    } else if ports.take(from).contains(ports[from]) {
        Some(from)
    } else {
        first_repeat(ports, from + 1)
    }
}

/// The verdict on a configuration.
///
/// A port that occurs twice among the checked ports is reported first, with the
/// port. Otherwise a virtual host that cannot be started makes the configuration
/// fail. Otherwise it is accepted.
pub open spec fn verdict(config: Config) -> Result<(), ValidatorError> {
    let ports = checked_ports(config.servers@);
    match first_repeat(ports, 0) {
        Some(at) => Err(ValidatorError::DuplicatePort(ports[at])),
        None => if exists|i: int| 0 <= i < config.servers@.len() && !startable(#[trigger] config.servers@[i]) {
            Err(ValidatorError::NoPortsSpecified)
        } else {
            Ok(())
        },
    }
}

/// `first_repeat` finds the least position whose port occurs before it.
pub proof fn lemma_first_repeat(ports: Seq<u16>, from: int)
    requires
        0 <= from,
    ensures
        match first_repeat(ports, from) {
            Some(at) => {
                &&& from <= at < ports.len()
                &&& ports.take(at).contains(ports[at])
                &&& forall|j: int| from <= j < at ==> !ports.take(j).contains(#[trigger] ports[j])
            },
            None => forall|j: int|
                from <= j < ports.len() ==> !ports.take(j).contains(#[trigger] ports[j]),
        },
    decreases ports.len() - from,
{
    if from >= ports.len() {
    } else if ports.take(from).contains(ports[from]) {
    } else {
        lemma_first_repeat(ports, from + 1);
    }
}

/// Two equal ports at different positions make `first_repeat` find a repeat.
pub proof fn lemma_repeat_found(ports: Seq<u16>, a: int, b: int)
    requires
        0 <= a < b < ports.len(),
        ports[a] == ports[b],
    ensures
        first_repeat(ports, 0) is Some,
{
    lemma_first_repeat(ports, 0);
    assert(ports.take(b)[a] == ports[b]);
    assert(ports.take(b).contains(ports[b]));
}

/// The position in the checked ports of port `i` of server `k`.
pub open spec fn port_position(servers: Seq<ServerConfig>, k: int, i: int) -> int {
    checked_ports(servers.take(k)).len() + i
}

/// Each port of a server with a host stands in the checked ports, at its position,
/// and positions grow with the server.
pub proof fn lemma_port_position(servers: Seq<ServerConfig>, k: int, i: int)
    requires
        0 <= k < servers.len(),
        servers[k].host@.len() > 0,
        0 <= i < servers[k].ports@.len(),
    ensures
        0 <= port_position(servers, k, i) < checked_ports(servers).len(),
        checked_ports(servers)[port_position(servers, k, i)] == servers[k].ports@[i],
        port_position(servers, k, i) < checked_ports(servers.take(k + 1)).len(),
    decreases servers.len(),
{
    let n = servers.len() as int;
    if k == n - 1 {
        assert(servers.take(k) =~= servers.drop_last());
        assert(servers.take(k + 1) =~= servers);
    } else {
        let shorter = servers.drop_last();
        lemma_port_position(shorter, k, i);
        assert(shorter.take(k) =~= servers.take(k));
        assert(shorter.take(k + 1) =~= servers.take(k + 1));
    }
}

/// The checked ports of a prefix of the servers are a prefix of the checked ports.
pub proof fn lemma_checked_ports_grow(servers: Seq<ServerConfig>, k: int)
    requires
        0 <= k <= servers.len(),
    ensures
        checked_ports(servers.take(k)).len() <= checked_ports(servers).len(),
    decreases servers.len() - k,
{
    if k == servers.len() {
        assert(servers.take(k) =~= servers);
    } else {
        lemma_checked_ports_grow(servers.drop_last(), k);
        assert(servers.drop_last().take(k) =~= servers.take(k));
    }
}

/// Two virtual hosts that both have a host and share a port are refused for a
/// duplicate port.
pub proof fn lemma_shared_port_is_refused(config: Config, a: int, b: int, i: int, j: int)
    requires
        0 <= a < b < config.servers@.len(),
        config.servers@[a].host@.len() > 0,
        config.servers@[b].host@.len() > 0,
        0 <= i < config.servers@[a].ports@.len(),
        0 <= j < config.servers@[b].ports@.len(),
        config.servers@[a].ports@[i] == config.servers@[b].ports@[j],
    ensures
        verdict(config) matches Err(ValidatorError::DuplicatePort(_)),
{
    let servers = config.servers@;
    lemma_port_position(servers, a, i);
    lemma_port_position(servers, b, j);
    lemma_checked_ports_grow(servers.take(b), a + 1);
    assert(servers.take(b).take(a + 1) =~= servers.take(a + 1));
    lemma_repeat_found(
        checked_ports(servers),
        port_position(servers, a, i),
        port_position(servers, b, j),
    );
}

/// Two virtual hosts that share a port are refused, whatever else they hold.
pub proof fn lemma_shared_port_fails(config: Config, a: int, b: int, i: int, j: int)
    requires
        0 <= a < b < config.servers@.len(),
        0 <= i < config.servers@[a].ports@.len(),
        0 <= j < config.servers@[b].ports@.len(),
        config.servers@[a].ports@[i] == config.servers@[b].ports@[j],
    ensures
        verdict(config) is Err,
{
    if config.servers@[a].host@.len() > 0 && config.servers@[b].host@.len() > 0 {
        lemma_shared_port_is_refused(config, a, b, i, j);
    } else if config.servers@[a].host@.len() == 0 {
        assert(!startable(config.servers@[a]));
    } else {
        assert(!startable(config.servers@[b]));
    }
}

/// A route path is usable: it begins with `/`.
pub open spec fn usable_route_path(path: Seq<char>) -> bool {
    path.len() > 0 && path[0] == '/'
}

/// A usable route before position `r` has the same path as route `r`.
pub open spec fn repeats_earlier_route(routes: Seq<RouteConfig>, r: int) -> bool {
    exists|q: int|
        0 <= q < r && usable_route_path((#[trigger] routes[q]).path@) && routes[q].path@
            == routes[r].path@
}

/// One warning where `bad` holds, none where it does not.
pub open spec fn warn_if(bad: bool, warning: Warning) -> Seq<Warning> {
    if bad {
        seq![warning]
    } else {
        Seq::empty()
    }
}

/// The warnings for the first `upto` methods of a route.
pub open spec fn method_warnings(methods: Seq<String>, server: usize, route: usize, upto: int)
    -> Seq<Warning>
    decreases upto,
{
    if upto <= 0 {
        Seq::empty()
    } else {
        method_warnings(methods, server, route, upto - 1) + warn_if(
            !is_http_method(uppercase(methods[upto - 1]@)),
            Warning::UnknownMethod { server, route, method: (upto - 1) as usize },
        )
    }
}

/// The warnings for a route whose path is usable and new: its methods, its root, its
/// redirect code and its body size limit, in this order.
pub open spec fn route_checks(rc: RouteConfig, server: usize, route: usize) -> Seq<Warning> {
    warn_if(rc.methods@.len() == 0, Warning::NoMethods { server, route }) + method_warnings(
        rc.methods@,
        server,
        route,
        rc.methods@.len() as int,
    ) + warn_if(
        rc.root matches Some(root) && !acceptable_root(root@),
        Warning::Root { server, route },
    ) + warn_if(
        rc.redirect matches Some(redirect) && !(300 <= redirect.code <= 308),
        Warning::RedirectCode { server, route },
    ) + warn_if(
        rc.client_max_body_size matches Some(size) && !well_formed_size(size@),
        Warning::RouteBodySize { server, route },
    )
}

/// The warnings for the first `upto` routes of a server. A route with an unusable
/// path, or with the path of an earlier route, gets that one warning and no other.
pub open spec fn route_warnings(routes: Seq<RouteConfig>, server: usize, upto: int) -> Seq<Warning>
    decreases upto,
{
    if upto <= 0 {
        Seq::empty()
    } else {
        let r = upto - 1;
        route_warnings(routes, server, r) + (if !usable_route_path(routes[r].path@) {
            seq![Warning::RoutePath { server, route: r as usize }]
        } else if repeats_earlier_route(routes, r) {
            seq![Warning::DuplicateRoute { server, route: r as usize }]
        } else {
            route_checks(routes[r], server, r as usize)
        })
    }
}

/// The warnings for the first `upto` names of a server.
pub open spec fn name_warnings(names: Seq<String>, server: usize, upto: int) -> Seq<Warning>
    decreases upto,
{
    if upto <= 0 {
        Seq::empty()
    } else {
        name_warnings(names, server, upto - 1) + warn_if(
            names[upto - 1]@.len() == 0,
            Warning::EmptyServerName { server, name: (upto - 1) as usize },
        )
    }
}

/// The warnings for one server. A server without host gets none; one without ports
/// gets those for its names only.
pub open spec fn server_warnings(sc: ServerConfig, server: usize) -> Seq<Warning> {
    if sc.host@.len() == 0 {
        Seq::empty()
    } else if sc.ports@.len() == 0 {
        name_warnings(sc.server_name@, server, sc.server_name@.len() as int)
    } else {
        name_warnings(sc.server_name@, server, sc.server_name@.len() as int) + warn_if(
            sc.client_max_body_size matches Some(size) && !well_formed_size(size@),
            Warning::ServerBodySize { server },
        ) + route_warnings(sc.routes@, server, sc.routes@.len() as int)
    }
}

/// The warnings for the first `upto` servers, after the one for the global body size
/// limit.
pub open spec fn warnings_upto(config: Config, upto: int) -> Seq<Warning>
    decreases upto,
{
    if upto <= 0 {
        warn_if(
            config.global.client_max_body_size matches Some(size) && !well_formed_size(size@),
            Warning::GlobalBodySize,
        )
    } else {
        warnings_upto(config, upto - 1) + server_warnings(
            config.servers@[upto - 1],
            (upto - 1) as usize,
        )
    }
}

/// Everything in a configuration that is reported without stopping the start-up, in
/// the order of the configuration.
pub open spec fn all_warnings(config: Config) -> Seq<Warning> {
    warnings_upto(config, config.servers@.len() as int)
}

/// Checks a configuration.
pub struct ConfigValidator;

impl ConfigValidator {
    /// Checks the form of a body size limit: a number followed by `K`, `M` or `G`, in
    /// either case, with space allowed around it. The error holds the text as it was
    /// checked.
    pub fn validate_body_size(size: &str) -> (r: Result<(), ValidatorError>)
        ensures
            r is Ok <==> well_formed_size(size@),
            r matches Err(e) ==> (e matches ValidatorError::InvalidBodySizeFormat(t) && t@
                == normal_size(size@)),
    {
        let text = chars_of(size);
        let trimmed = crate::chars::string_of(trim_chars(text.as_slice()));
        Self::check_size_text(to_uppercase(trimmed.as_str()))
    }

    /// Checks a body size limit that is already trimmed and in upper case: a number
    /// followed by `K`, `M` or `G`. The error holds the text.
    pub fn check_size_text(upper: String) -> (r: Result<(), ValidatorError>)
        ensures
            r is Ok <==> is_size_text(upper@),
            r matches Err(e) ==> (e matches ValidatorError::InvalidBodySizeFormat(t) && t@
                == upper@),
    {
        let u = chars_of(upper.as_str());
        let n = u.len();
        if n == 0 {
            return Err(ValidatorError::InvalidBodySizeFormat(upper));
        }
        let last = u[n - 1];
        if !(last == 'K' || last == 'M' || last == 'G') {
            return Err(ValidatorError::InvalidBodySizeFormat(upper));
        }
        let digits = slice_subrange(u.as_slice(), 0, n - 1);
        proof {
            assert(digits@ =~= u@.drop_last());
        }
        if parse_u64_chars(digits).is_none() {
            return Err(ValidatorError::InvalidBodySizeFormat(upper));
        }
        Ok(())
    }

    /// Whether a root is acceptable: it begins with `./` or is absolute.
    pub fn validate_path(path: &str) -> (r: bool)
        ensures
            r == acceptable_root(path@),
    {
        let p = chars_of(path);
        starts_with_chars(p.as_slice(), chars_of("./").as_slice()) || starts_with_chars(
            p.as_slice(),
            chars_of("/").as_slice(),
        )
    }

    /// Checks the configuration for the errors that forbid a start.
    pub fn validate(config: &Config) -> (r: Result<(), ValidatorError>)
        ensures
            r == verdict(*config),
    {
        let mut used_ports: HashSet<u16> = HashSet::new();
        let ghost mut listed: Seq<u16> = Seq::empty();
        let mut has_critical_error = false;
        let n = config.servers.len();
        let ghost servers = config.servers@;
        let mut s: usize = 0;
        proof {
            assert(servers.take(0) =~= Seq::<ServerConfig>::empty());
            lemma_first_repeat(Seq::<u16>::empty(), 0);
            assert(used_ports@ =~= listed.to_set());
        }
        while s < n
            invariant
                n == config.servers@.len(),
                servers == config.servers@,
                s <= n,
                used_ports@ == listed.to_set(),
                listed == checked_ports(servers.take(s as int)),
                first_repeat(listed, 0) is None,
                has_critical_error == exists|i: int|
                    0 <= i < s && !startable(#[trigger] servers[i]),
            decreases n - s,
        {
            let server = &config.servers[s];
            proof {
                assert(servers.take(s + 1).drop_last() =~= servers.take(s as int));
                assert(servers.take(s + 1).last() == servers[s as int]);
            }
            if server.host.as_str().is_empty() {
                has_critical_error = true;
                proof {
                    assert(!startable(servers[s as int]));
                }
                s += 1;
                continue ;
            }
            if server.ports.len() == 0 {
                has_critical_error = true;
                proof {
                    assert(!startable(servers[s as int]));
                    assert(listed + servers[s as int].ports@ =~= listed);
                }
                s += 1;
                continue ;
            }
            let ghost before = listed;
            let count = server.ports.len();
            let mut p: usize = 0;
            proof {
                assert(before + server.ports@.take(0) =~= before);
            }
            while p < count
                invariant
                    n == config.servers@.len(),
                    servers == config.servers@,
                    s < n,
                    server == &config.servers@[s as int],
                    count == server.ports@.len(),
                    p <= count,
                    before == checked_ports(servers.take(s as int)),
                    used_ports@ == listed.to_set(),
                    listed == before + server.ports@.take(p as int),
                    first_repeat(listed, 0) is None,
                    servers[s as int].host@.len() > 0,
                decreases count - p,
            {
                let port = server.ports[p];
                let ghost so_far = listed;
                if !used_ports.insert(port) {
                    proof {
                        assert(so_far.contains(port));
                        Self::lemma_duplicate_found(servers, s as int, p as int);
                    }
                    return Err(ValidatorError::DuplicatePort(port));
                }
                proof {
                    assert(!so_far.contains(port));
                    listed = so_far.push(port);
                    assert(server.ports@.take(p + 1) =~= server.ports@.take(p as int).push(port));
                    assert(listed =~= before + server.ports@.take(p + 1));
                    Self::lemma_no_repeat_push(so_far, port);
                    assert(used_ports@ =~= listed.to_set()) by {
                        assert forall|x: u16| listed.contains(x) <==> so_far.contains(x) || x
                            == port by {
                            if so_far.contains(x) {
                                let k = so_far.index_of(x);
                                assert(listed[k] == x);
                            }
                            if x == port {
                                assert(listed[so_far.len() as int] == x);
                            }
                        }
                    }
                }
                p += 1;
            }
            proof {
                assert(server.ports@.take(count as int) =~= server.ports@);
                assert(exists|i: int| 0 <= i < s && !startable(#[trigger] servers[i]) <==> exists|
                    i: int,
                | 0 <= i < s + 1 && !startable(#[trigger] servers[i]));
            }
            s += 1;
        }
        proof {
            assert(servers.take(n as int) =~= servers);
        }
        if has_critical_error {
            return Err(ValidatorError::NoPortsSpecified);
        }
        Ok(())
    }

    fn is_known_method(method: &str) -> (r: bool)
        ensures
            r == is_http_method(uppercase(method@)),
    {
        Self::names_http_method(to_uppercase(method).as_str())
    }

    /// Whether a text in upper case is the name of a method that HTTP knows.
    pub fn names_http_method(upper: &str) -> (r: bool)
        ensures
            r == is_http_method(upper@),
    {
        let u = chars_of(upper);
        chars_eq(u.as_slice(), chars_of("GET").as_slice()) || chars_eq(
            u.as_slice(),
            chars_of("POST").as_slice(),
        ) || chars_eq(u.as_slice(), chars_of("PUT").as_slice()) || chars_eq(
            u.as_slice(),
            chars_of("DELETE").as_slice(),
        ) || chars_eq(u.as_slice(), chars_of("HEAD").as_slice()) || chars_eq(
            u.as_slice(),
            chars_of("OPTIONS").as_slice(),
        ) || chars_eq(u.as_slice(), chars_of("PATCH").as_slice()) || chars_eq(
            u.as_slice(),
            chars_of("TRACE").as_slice(),
        ) || chars_eq(u.as_slice(), chars_of("CONNECT").as_slice())
    }

    fn is_usable_path(path: &str) -> (r: bool)
        ensures
            r == usable_route_path(path@),
    {
        let p = chars_of(path);
        p.len() > 0 && p[0] == '/'
    }

    fn size_is_malformed(size: &Option<String>) -> (r: bool)
        ensures
            r == (*size matches Some(text) && !well_formed_size(text@)),
    {
        match size {
            Some(text) => Self::validate_body_size(text.as_str()).is_err(),
            None => false,
        }
    }

    fn repeats_earlier(routes: &Vec<RouteConfig>, r: usize) -> (found: bool)
        requires
            r < routes@.len(),
        ensures
            found == repeats_earlier_route(routes@, r as int),
    {
        let mut q: usize = 0;
        while q < r
            invariant
                q <= r,
                r < routes@.len(),
                forall|k: int|
                    0 <= k < q ==> !(usable_route_path((#[trigger] routes@[k]).path@)
                        && routes@[k].path@ == routes@[r as int].path@),
            decreases r - q,
        {
            if Self::is_usable_path(routes[q].path.as_str()) && routes[q].path == routes[r].path {
                return true;
            }
            q += 1;
        }
        false
    }

    fn check_route(rc: &RouteConfig, server: usize, route: usize, out: &mut Vec<Warning>)
        ensures
            final(out)@ == old(out)@ + route_checks(*rc, server, route),
    {
        let ghost start = out@;
        if rc.methods.len() == 0 {
            out.push(Warning::NoMethods { server, route });
        }
        let ghost first = warn_if(rc.methods@.len() == 0, Warning::NoMethods { server, route });
        proof {
            assert(out@ =~= start + first + method_warnings(rc.methods@, server, route, 0));
        }
        let n = rc.methods.len();
        let mut m: usize = 0;
        while m < n
            invariant
                n == rc.methods@.len(),
                m <= n,
                out@ == start + first + method_warnings(rc.methods@, server, route, m as int),
            decreases n - m,
        {
            if !Self::is_known_method(rc.methods[m].as_str()) {
                out.push(Warning::UnknownMethod { server, route, method: m });
            }
            proof {
                assert(out@ =~= start + first + method_warnings(
                    rc.methods@,
                    server,
                    route,
                    m + 1,
                ));
            }
            m += 1;
        }
        let bad_root = match &rc.root {
            Some(root) => !Self::validate_path(root.as_str()),
            None => false,
        };
        if bad_root {
            out.push(Warning::Root { server, route });
        }
        let bad_code = match &rc.redirect {
            Some(redirect) => !(300 <= redirect.code && redirect.code <= 308),
            None => false,
        };
        if bad_code {
            out.push(Warning::RedirectCode { server, route });
        }
        if Self::size_is_malformed(&rc.client_max_body_size) {
            out.push(Warning::RouteBodySize { server, route });
        }
        proof {
            assert(out@ =~= start + route_checks(*rc, server, route));
        }
    }

    fn check_server(sc: &ServerConfig, server: usize, out: &mut Vec<Warning>)
        ensures
            final(out)@ == old(out)@ + server_warnings(*sc, server),
    {
        let ghost start = out@;
        if sc.host.as_str().is_empty() {
            proof {
                assert(out@ =~= start + server_warnings(*sc, server));
            }
            return ;
        }
        let names = sc.server_name.len();
        let mut k: usize = 0;
        proof {
            assert(out@ =~= start + name_warnings(sc.server_name@, server, 0));
        }
        while k < names
            invariant
                names == sc.server_name@.len(),
                k <= names,
                out@ == start + name_warnings(sc.server_name@, server, k as int),
            decreases names - k,
        {
            if sc.server_name[k].as_str().is_empty() {
                out.push(Warning::EmptyServerName { server, name: k });
            }
            proof {
                assert(out@ =~= start + name_warnings(sc.server_name@, server, k + 1));
            }
            k += 1;
        }
        if sc.ports.len() == 0 {
            return ;
        }
        if Self::size_is_malformed(&sc.client_max_body_size) {
            out.push(Warning::ServerBodySize { server });
        }
        let ghost head = out@;
        let routes = sc.routes.len();
        let mut r: usize = 0;
        proof {
            assert(out@ =~= head + route_warnings(sc.routes@, server, 0));
        }
        while r < routes
            invariant
                routes == sc.routes@.len(),
                r <= routes,
                out@ == head + route_warnings(sc.routes@, server, r as int),
            decreases routes - r,
        {
            let rc = &sc.routes[r];
            if !Self::is_usable_path(rc.path.as_str()) {
                out.push(Warning::RoutePath { server, route: r });
            } else if Self::repeats_earlier(&sc.routes, r) {
                out.push(Warning::DuplicateRoute { server, route: r });
            } else {
                Self::check_route(rc, server, r, out);
            }
            proof {
                assert(out@ =~= head + route_warnings(sc.routes@, server, r + 1));
            }
            r += 1;
        }
        proof {
            assert(out@ =~= start + server_warnings(*sc, server));
        }
    }

    /// Everything in the configuration that is reported without stopping the
    /// start-up: malformed size limits, empty server names, unusable or repeated
    /// route paths, unknown methods, unacceptable roots and redirect codes outside
    /// 300 to 308.
    pub fn warnings(config: &Config) -> (out: Vec<Warning>)
        ensures
            out@ == all_warnings(*config),
    {
        let mut out: Vec<Warning> = Vec::new();
        if Self::size_is_malformed(&config.global.client_max_body_size) {
            out.push(Warning::GlobalBodySize);
        }
        proof {
            assert(out@ =~= warnings_upto(*config, 0));
        }
        let n = config.servers.len();
        let mut s: usize = 0;
        while s < n
            invariant
                n == config.servers@.len(),
                s <= n,
                out@ == warnings_upto(*config, s as int),
            decreases n - s,
        {
            Self::check_server(&config.servers[s], s, &mut out);
            s += 1;
        }
        out
    }

    proof fn lemma_no_repeat_push(ports: Seq<u16>, port: u16)
        requires
            first_repeat(ports, 0) is None,
            !ports.contains(port),
        ensures
            first_repeat(ports.push(port), 0) is None,
    {
        let longer = ports.push(port);
        lemma_first_repeat(ports, 0);
        lemma_first_repeat(longer, 0);
        if first_repeat(longer, 0) is Some {
            let at = first_repeat(longer, 0)->0;
            if at < ports.len() {
                assert(longer.take(at) =~= ports.take(at));
                assert(longer[at] == ports[at]);
            } else {
                assert(longer.take(at) =~= ports);
            }
        }
    }

    proof fn lemma_duplicate_found(servers: Seq<ServerConfig>, s: int, p: int)
        requires
            0 <= s < servers.len(),
            servers[s].host@.len() > 0,
            0 <= p < servers[s].ports@.len(),
            first_repeat(checked_ports(servers.take(s)) + servers[s].ports@.take(p), 0) is None,
            (checked_ports(servers.take(s)) + servers[s].ports@.take(p)).contains(
                servers[s].ports@[p],
            ),
        ensures
            first_repeat(checked_ports(servers), 0) == Some(port_position(servers, s, p)),
            checked_ports(servers)[port_position(servers, s, p)] == servers[s].ports@[p],
    {
        let all = checked_ports(servers);
        let so_far = checked_ports(servers.take(s)) + servers[s].ports@.take(p);
        let at = port_position(servers, s, p);
        lemma_port_position(servers, s, p);
        Self::lemma_prefix(servers, s, p);
        assert(all.take(at) =~= so_far);
        lemma_first_repeat(all, 0);
        lemma_first_repeat(so_far, 0);
        assert forall|j: int| 0 <= j < at implies !all.take(j).contains(#[trigger] all[j]) by {
            assert(all.take(j) =~= so_far.take(j));
            assert(all[j] == so_far[j]);
        }
    }

    proof fn lemma_prefix(servers: Seq<ServerConfig>, s: int, p: int)
        requires
            0 <= s < servers.len(),
            servers[s].host@.len() > 0,
            0 <= p <= servers[s].ports@.len(),
        ensures
            checked_ports(servers).len() >= checked_ports(servers.take(s)).len() + p,
            checked_ports(servers).take(checked_ports(servers.take(s)).len() + p)
                == checked_ports(servers.take(s)) + servers[s].ports@.take(p),
        decreases servers.len(),
    {
        let n = servers.len() as int;
        if s == n - 1 {
            assert(servers.take(s) =~= servers.drop_last());
            let head = checked_ports(servers.drop_last());
            assert((head + servers[s].ports@).take(head.len() + p) =~= head
                + servers[s].ports@.take(p));
        } else {
            let shorter = servers.drop_last();
            Self::lemma_prefix(shorter, s, p);
            assert(shorter.take(s) =~= servers.take(s));
            let k = checked_ports(servers.take(s)).len() + p;
            assert(checked_ports(servers).take(k) =~= checked_ports(shorter).take(k));
        }
    }
}

} // verus!
