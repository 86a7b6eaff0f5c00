//! Cookies, and their rendering as a `Set-Cookie` value.

use crate::foreign::{format_rfc2822, rfc2822_text, RFC2822_MAX_SECS, RFC2822_MIN_SECS};
use crate::text::text_of;
use vstd::prelude::*;
use vstd::string::StringExecFns;

verus! {

/// A cookie: a name and a value, with optional attributes.
#[derive(Debug)]
pub struct Cookie {
    pub name: String,
    pub value: String,
    pub expires: Option<String>,
    pub path: Option<String>,
    pub domain: Option<String>,
    pub secure: Option<bool>,
    pub http_only: Option<bool>,
}

/// The model of a [`Cookie`].
pub struct CookieView {
    pub name: Seq<char>,
    pub value: Seq<char>,
    pub expires: Option<Seq<char>>,
    pub path: Option<Seq<char>>,
    pub domain: Option<Seq<char>>,
    pub secure: Option<bool>,
    pub http_only: Option<bool>,
}

/// `"; "`, the attribute's name and `=`, and its value; nothing for an absent one.
pub open spec fn attribute_text(label: Seq<char>, value: Option<Seq<char>>) -> Seq<char> {
    match value {
        Some(v) => label + v,
        None => Seq::empty(),
    }
}

/// The flag's text where the flag is set; nothing where it is unset or absent.
pub open spec fn flag_text(label: Seq<char>, flag: Option<bool>) -> Seq<char> {
    if flag == Some(true) {
        label
    } else {
        Seq::empty()
    }
}

impl CookieView {
    /// The cookie as the value of a `Set-Cookie` header.
    pub open spec fn text(self) -> Seq<char> {
        self.name + "="@ + self.value + attribute_text("; expires="@, self.expires)
            + attribute_text("; path="@, self.path) + attribute_text("; domain="@, self.domain)
            + flag_text("; Secure"@, self.secure) + flag_text("; HttpOnly"@, self.http_only)
    }
}

impl View for Cookie {
    type V = CookieView;

    open spec fn view(&self) -> CookieView {
        CookieView {
            name: self.name@,
            value: self.value@,
            expires: text_of(self.expires),
            path: text_of(self.path),
            domain: text_of(self.domain),
            secure: self.secure,
            http_only: self.http_only,
        }
    }
}

impl Cookie {
    /// A cookie with a name and a value, and no attribute.
    pub fn new(name: &str, value: &str) -> (c: Cookie)
        ensures
            c@ == (CookieView {
                name: name@,
                value: value@,
                expires: None,
                path: None,
                domain: None,
                secure: None,
                http_only: None,
            }),
    {
        Cookie {
            name: name.to_owned(),
            value: value.to_owned(),
            expires: None,
            path: None,
            domain: None,
            secure: None,
            http_only: None,
        }
    }

    /// Sets the expiry to the RFC 2822 date of `secs` seconds after the Unix epoch,
    /// which must lie in the years 0 to 9999.
    pub fn set_expires(&mut self, secs: i64)
        requires
            RFC2822_MIN_SECS <= secs <= RFC2822_MAX_SECS,
        ensures
            final(self)@ == (CookieView { expires: Some(rfc2822_text(secs)), ..old(self)@ }),
    {
        self.expires = Some(format_rfc2822(secs));
    }

    /// Sets the path attribute.
    pub fn set_path(&mut self, path: &str)
        ensures
            final(self)@ == (CookieView { path: Some(path@), ..old(self)@ }),
    {
        self.path = Some(path.to_owned());
    }

    /// Sets the domain attribute.
    pub fn set_domain(&mut self, domain: &str)
        ensures
            final(self)@ == (CookieView { domain: Some(domain@), ..old(self)@ }),
    {
        self.domain = Some(domain.to_owned());
    }

    /// Sets or clears the `secure` flag.
    pub fn set_secure(&mut self, secure: bool)
        ensures
            final(self)@ == (CookieView { secure: Some(secure), ..old(self)@ }),
    {
        self.secure = Some(secure);
    }

    /// Sets or clears the `HttpOnly` flag.
    pub fn set_http_only(&mut self, http_only: bool)
        ensures
            final(self)@ == (CookieView { http_only: Some(http_only), ..old(self)@ }),
    {
        self.http_only = Some(http_only);
    }

    /// The cookie as the value of a `Set-Cookie` header: `name=value`, then the
    /// attributes that are present, each after `"; "`.
    pub fn to_string(&self) -> (s: String)
        ensures
            s@ == self@.text(),
    {
        let mut s = self.name.clone();
        s.append("=");
        s.append(self.value.as_str());
        if let Some(expires) = &self.expires {
            s.append("; expires=");
            s.append(expires.as_str());
        }
        if let Some(path) = &self.path {
            s.append("; path=");
            s.append(path.as_str());
        }
        if let Some(domain) = &self.domain {
            s.append("; domain=");
            s.append(domain.as_str());
        }
        if let Some(secure) = self.secure {
            if secure {
                s.append("; Secure");
            }
        }
        if let Some(http_only) = self.http_only {
            if http_only {
                s.append("; HttpOnly");
            }
        }
        proof {
            assert(s@ =~= self@.text());
        }
        s
    }
}

} // verus!
