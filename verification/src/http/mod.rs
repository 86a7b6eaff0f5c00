//! HTTP messages: methods, status codes, headers, cookies, requests and responses.

pub mod cookies;
pub mod files;
pub mod headers;
pub mod methods;
pub mod request;
pub mod request_form;
pub mod response;
pub mod sessions;
pub mod status;
pub mod upload;

pub use cookies::Cookie;
pub use headers::Headers;
pub use methods::Method;
pub use request::Request;
pub use response::Response;
pub use sessions::{Session, SessionStore};
pub use status::StatusCode;
pub use upload::{MultipartFormData, UploadedFile};
