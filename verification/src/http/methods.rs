//! Request methods.

use crate::chars::{chars_eq, chars_of};
use crate::foreign::{to_uppercase, uppercase};
use vstd::prelude::*;

verus! {

/// The method of a request.
#[derive(Debug, Clone, PartialEq, Eq)]
pub enum Method {
    GET,
    POST,
    DELETE,
    HEAD,
    PUT,
    PATCH,
    OPTIONS,
    /// Any other method, with the text as the client wrote it.
    UNKNOWN(String),
}

/// The model of a [`Method`].
pub enum MethodView {
    GET,
    POST,
    DELETE,
    HEAD,
    PUT,
    PATCH,
    OPTIONS,
    UNKNOWN(Seq<char>),
}

impl MethodView {
    /// The name of the method.
    pub open spec fn name(self) -> Seq<char> {
        match self {
            MethodView::GET => "GET"@,
            MethodView::POST => "POST"@,
            MethodView::DELETE => "DELETE"@,
            MethodView::HEAD => "HEAD"@,
            MethodView::PUT => "PUT"@,
            MethodView::PATCH => "PATCH"@,
            MethodView::OPTIONS => "OPTIONS"@,
            MethodView::UNKNOWN(s) => s,
        }
    }
}

/// The method that the text `s` names: a known method where the upper-case form of
/// `s` is its name, and otherwise `UNKNOWN` with `s` itself.
pub open spec fn method_of(s: Seq<char>) -> MethodView {
    method_named(uppercase(s), s)
}

/// The method of a text `given` whose upper-case form is `upper`: the known method
/// of that name, and otherwise `UNKNOWN` with the text as given.
pub open spec fn method_named(upper: Seq<char>, given: Seq<char>) -> MethodView {
    if upper == "GET"@ {
        MethodView::GET
    } else if upper == "POST"@ {
        MethodView::POST
    } else if upper == "DELETE"@ {
        MethodView::DELETE
    } else if upper == "HEAD"@ {
        MethodView::HEAD
    } else if upper == "PUT"@ {
        MethodView::PUT
    } else if upper == "PATCH"@ {
        MethodView::PATCH
    } else if upper == "OPTIONS"@ {
        MethodView::OPTIONS
    } else {
        MethodView::UNKNOWN(given)
    }
}

impl View for Method {
    type V = MethodView;

    open spec fn view(&self) -> MethodView {
        match self {
            Method::GET => MethodView::GET,
            Method::POST => MethodView::POST,
            Method::DELETE => MethodView::DELETE,
            Method::HEAD => MethodView::HEAD,
            Method::PUT => MethodView::PUT,
            Method::PATCH => MethodView::PATCH,
            Method::OPTIONS => MethodView::OPTIONS,
            Method::UNKNOWN(s) => MethodView::UNKNOWN(s@),
        }
    }
}

impl Method {
    /// The name of the method.
    pub fn as_str(&self) -> (s: &str)
        ensures
            s@ == self@.name(),
    {
        match self {
            Method::GET => "GET",
            Method::POST => "POST",
            Method::DELETE => "DELETE",
            Method::HEAD => "HEAD",
            Method::PUT => "PUT",
            Method::PATCH => "PATCH",
            Method::OPTIONS => "OPTIONS",
            Method::UNKNOWN(s) => s.as_str(),
        }
    }

    /// The method that `s` names, whatever the case of its letters.
    pub fn from_str(s: &str) -> (m: Method)
        ensures
            m@ == method_of(s@),
    {
        let upper = to_uppercase(s);
        Self::from_upper(upper.as_str(), s)
    }

    /// The method of a text `given` whose upper-case form is `upper`.
    pub fn from_upper(upper: &str, given: &str) -> (m: Method)
        ensures
            m@ == method_named(upper@, given@),
    {
        let u = chars_of(upper);
        if chars_eq(u.as_slice(), chars_of("GET").as_slice()) {
            Method::GET
        } else if chars_eq(u.as_slice(), chars_of("POST").as_slice()) {
            Method::POST
        } else if chars_eq(u.as_slice(), chars_of("DELETE").as_slice()) {
            Method::DELETE
        } else if chars_eq(u.as_slice(), chars_of("HEAD").as_slice()) {
            Method::HEAD
        } else if chars_eq(u.as_slice(), chars_of("PUT").as_slice()) {
            Method::PUT
        } else if chars_eq(u.as_slice(), chars_of("PATCH").as_slice()) {
            Method::PATCH
        } else if chars_eq(u.as_slice(), chars_of("OPTIONS").as_slice()) {
            Method::OPTIONS
        } else {
            Method::UNKNOWN(given.to_owned())
        }
    }

    /// A copy of the method.
    pub fn duplicate(&self) -> (m: Method)
        ensures
            m@ == self@,
    {
        match self {
            Method::GET => Method::GET,
            Method::POST => Method::POST,
            Method::DELETE => Method::DELETE,
            Method::HEAD => Method::HEAD,
            Method::PUT => Method::PUT,
            Method::PATCH => Method::PATCH,
            Method::OPTIONS => Method::OPTIONS,
            Method::UNKNOWN(s) => Method::UNKNOWN(s.clone()),
        }
    }
}

} // verus!
