//! Response status codes.

use vstd::prelude::*;

verus! {

/// The status codes that the server sends.
#[derive(Debug, Clone, Copy, PartialEq, Eq, Structural)]
pub enum StatusCode {
    OK,
    Created,
    NoContent,
    MultipleChoices,
    MovedPermenantly,
    Found,
    SeeOther,
    NotModified,
    UseProxy,
    Unused,
    TemporaryRedirect,
    PermenantRedirect,
    BadRequest,
    Unauthorized,
    Forbidden,
    NotFound,
    MethodNotAllowed,
    PayloadTooLarge,
    InternalServerError,
    NotImplemented,
    /// A code that has no name here, as a configuration may ask for.
    Other(u16),
}

impl StatusCode {
    /// The numeric value of the status.
    pub open spec fn code(self) -> u16 {
        match self {
            StatusCode::OK => 200,
            StatusCode::Created => 201,
            StatusCode::NoContent => 204,
            StatusCode::MultipleChoices => 300,
            StatusCode::MovedPermenantly => 301,
            StatusCode::Found => 302,
            StatusCode::SeeOther => 303,
            StatusCode::NotModified => 304,
            StatusCode::UseProxy => 305,
            StatusCode::Unused => 306,
            StatusCode::TemporaryRedirect => 307,
            StatusCode::PermenantRedirect => 308,
            StatusCode::BadRequest => 400,
            StatusCode::Unauthorized => 401,
            StatusCode::Forbidden => 403,
            StatusCode::NotFound => 404,
            StatusCode::MethodNotAllowed => 405,
            StatusCode::PayloadTooLarge => 413,
            StatusCode::InternalServerError => 500,
            StatusCode::NotImplemented => 501,
            StatusCode::Other(code) => code,
        }
    }

    /// The reason phrase of the status; a code without a name has none.
    pub open spec fn reason(self) -> Seq<char> {
        match self {
            StatusCode::OK => "OK"@,
            StatusCode::Created => "Created"@,
            StatusCode::NoContent => "No Content"@,
            StatusCode::MultipleChoices => "Multiple Choices"@,
            StatusCode::MovedPermenantly => "Moved Permanently"@,
            StatusCode::Found => "Found"@,
            StatusCode::SeeOther => "See Other"@,
            StatusCode::NotModified => "Not Modified"@,
            StatusCode::UseProxy => "Use Proxy"@,
            StatusCode::Unused => "Unused"@,
            StatusCode::TemporaryRedirect => "Temporary Redirect"@,
            StatusCode::PermenantRedirect => "Permanent Redirect"@,
            StatusCode::BadRequest => "Bad Request"@,
            StatusCode::Unauthorized => "Unauthorized"@,
            StatusCode::Forbidden => "Forbidden"@,
            StatusCode::NotFound => "Not Found"@,
            StatusCode::MethodNotAllowed => "Method Not Allowed"@,
            StatusCode::PayloadTooLarge => "Payload Too Large"@,
            StatusCode::InternalServerError => "Internal Server Error"@,
            StatusCode::NotImplemented => "Not Implemented"@,
            StatusCode::Other(_) => ""@,
        }
    }

    /// The status that carries the given code: the one of that name where there is
    /// one, and the bare code otherwise.
    pub open spec fn carrying(code: u16) -> StatusCode {
        match StatusCode::with_code(code) {
            Some(status) => status,
            None => StatusCode::Other(code),
        }
    }

    /// The status of the given code, if one has that code by name.
    pub open spec fn with_code(code: u16) -> Option<StatusCode> {
        if code == 200 {
            Some(StatusCode::OK)
        } else if code == 201 {
            Some(StatusCode::Created)
        } else if code == 204 {
            Some(StatusCode::NoContent)
        } else if code == 300 {
            Some(StatusCode::MultipleChoices)
        } else if code == 301 {
            Some(StatusCode::MovedPermenantly)
        } else if code == 302 {
            Some(StatusCode::Found)
        } else if code == 303 {
            Some(StatusCode::SeeOther)
        } else if code == 304 {
            Some(StatusCode::NotModified)
        } else if code == 305 {
            Some(StatusCode::UseProxy)
        } else if code == 306 {
            Some(StatusCode::Unused)
        } else if code == 307 {
            Some(StatusCode::TemporaryRedirect)
        } else if code == 308 {
            Some(StatusCode::PermenantRedirect)
        } else if code == 400 {
            Some(StatusCode::BadRequest)
        } else if code == 401 {
            Some(StatusCode::Unauthorized)
        } else if code == 403 {
            Some(StatusCode::Forbidden)
        } else if code == 404 {
            Some(StatusCode::NotFound)
        } else if code == 405 {
            Some(StatusCode::MethodNotAllowed)
        } else if code == 413 {
            Some(StatusCode::PayloadTooLarge)
        } else if code == 500 {
            Some(StatusCode::InternalServerError)
        } else if code == 501 {
            Some(StatusCode::NotImplemented)
        } else {
            None
        }
    }

    /// The status of the given code, if one has that code by name.
    pub fn from_u16(status_code: u16) -> (r: Option<StatusCode>)
        ensures
            r == StatusCode::with_code(status_code),
            match r {
                Some(s) => s.code() == status_code && !(s is Other),
                None => forall|s: StatusCode| s.code() == status_code ==> s is Other,
            },
    {
        match status_code {
            200 => Some(StatusCode::OK),
            201 => Some(StatusCode::Created),
            204 => Some(StatusCode::NoContent),
            300 => Some(StatusCode::MultipleChoices),
            301 => Some(StatusCode::MovedPermenantly),
            302 => Some(StatusCode::Found),
            303 => Some(StatusCode::SeeOther),
            304 => Some(StatusCode::NotModified),
            305 => Some(StatusCode::UseProxy),
            306 => Some(StatusCode::Unused),
            307 => Some(StatusCode::TemporaryRedirect),
            308 => Some(StatusCode::PermenantRedirect),
            400 => Some(StatusCode::BadRequest),
            401 => Some(StatusCode::Unauthorized),
            403 => Some(StatusCode::Forbidden),
            404 => Some(StatusCode::NotFound),
            405 => Some(StatusCode::MethodNotAllowed),
            413 => Some(StatusCode::PayloadTooLarge),
            500 => Some(StatusCode::InternalServerError),
            501 => Some(StatusCode::NotImplemented),
            _ => None,
        }
    }

    /// The numeric value of the status.
    pub fn as_u16(&self) -> (n: u16)
        ensures
            n == self.code(),
    {
        match self {
            StatusCode::OK => 200,
            StatusCode::Created => 201,
            StatusCode::NoContent => 204,
            StatusCode::MultipleChoices => 300,
            StatusCode::MovedPermenantly => 301,
            StatusCode::Found => 302,
            StatusCode::SeeOther => 303,
            StatusCode::NotModified => 304,
            StatusCode::UseProxy => 305,
            StatusCode::Unused => 306,
            StatusCode::TemporaryRedirect => 307,
            StatusCode::PermenantRedirect => 308,
            StatusCode::BadRequest => 400,
            StatusCode::Unauthorized => 401,
            StatusCode::Forbidden => 403,
            StatusCode::NotFound => 404,
            StatusCode::MethodNotAllowed => 405,
            StatusCode::PayloadTooLarge => 413,
            StatusCode::InternalServerError => 500,
            StatusCode::NotImplemented => 501,
            StatusCode::Other(code) => *code,
        }
    }

    /// The status that carries the given code: the one of that name where there is
    /// one, and the bare code otherwise.
    pub fn with_number(code: u16) -> (s: StatusCode)
        ensures
            s == StatusCode::carrying(code),
            s.code() == code,
    {
        match StatusCode::from_u16(code) {
            Some(status) => status,
            None => StatusCode::Other(code),
        }
    }

    /// The reason phrase of the status.
    pub fn to_text(&self) -> (s: String)
        ensures
            s@ == self.reason(),
    {
        match self {
            StatusCode::OK => "OK".to_owned(),
            StatusCode::Created => "Created".to_owned(),
            StatusCode::NoContent => "No Content".to_owned(),
            StatusCode::MultipleChoices => "Multiple Choices".to_owned(),
            StatusCode::MovedPermenantly => "Moved Permanently".to_owned(),
            StatusCode::Found => "Found".to_owned(),
            StatusCode::SeeOther => "See Other".to_owned(),
            StatusCode::NotModified => "Not Modified".to_owned(),
            StatusCode::UseProxy => "Use Proxy".to_owned(),
            StatusCode::Unused => "Unused".to_owned(),
            StatusCode::TemporaryRedirect => "Temporary Redirect".to_owned(),
            StatusCode::PermenantRedirect => "Permanent Redirect".to_owned(),
            StatusCode::BadRequest => "Bad Request".to_owned(),
            StatusCode::Unauthorized => "Unauthorized".to_owned(),
            StatusCode::Forbidden => "Forbidden".to_owned(),
            StatusCode::NotFound => "Not Found".to_owned(),
            StatusCode::MethodNotAllowed => "Method Not Allowed".to_owned(),
            StatusCode::PayloadTooLarge => "Payload Too Large".to_owned(),
            StatusCode::InternalServerError => "Internal Server Error".to_owned(),
            StatusCode::NotImplemented => "Not Implemented".to_owned(),
            StatusCode::Other(_) => "".to_owned(),
        }
    }

    /// The numeric value of the status, written in base ten.
    pub fn to_string(&self) -> (s: String)
        ensures
            s@ == crate::text::decimal(self.code() as nat),
    {
        crate::chars::decimal_string(self.as_u16() as u64)
    }
}

} // verus!
