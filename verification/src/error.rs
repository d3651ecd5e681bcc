//! Error types: the domain error and the HTTP-facing API error.
use vstd::prelude::*;
use vstd::string::StringExecFns;

verus! {

/// Errors reported by the domain logic.
#[derive(Debug, Clone)]
pub enum Error {
    NotFound(String),
    InvalidInput(String),
    PermissionDenied(String),
    Storage(String),
    Other(String),
}

/// The human-readable text of an error.
pub open spec fn error_text(e: Error) -> Seq<char> {
    match e {
        Error::NotFound(m) => "not found: "@ + m@,
        Error::InvalidInput(m) => "invalid input: "@ + m@,
        Error::PermissionDenied(m) => "permission denied: "@ + m@,
        Error::Storage(m) => "storage error: "@ + m@,
        Error::Other(m) => m@,
    }
}

/// `prefix` followed by `rest`, as a new `String`.
pub fn concat_str(prefix: &str, rest: &str) -> (r: String)
    ensures
        r@ == prefix@ + rest@,
{
    let mut r = prefix.to_owned();
    r.append(rest);
    r
}

impl Error {
    /// The human-readable text of this error.
    pub fn describe(&self) -> (r: String)
        ensures
            r@ == error_text(*self),
    {
        match self {
            Error::NotFound(m) => concat_str("not found: ", m.as_str()),
            Error::InvalidInput(m) => concat_str("invalid input: ", m.as_str()),
            Error::PermissionDenied(m) => concat_str("permission denied: ", m.as_str()),
            Error::Storage(m) => concat_str("storage error: ", m.as_str()),
            Error::Other(m) => m.as_str().to_owned(),
        }
    }
}

/// An error answered to an HTTP client: a status code and a message.
#[derive(Debug)]
pub struct ApiError {
    pub status: u16,
    pub message: String,
}

impl ApiError {
    /// A 404 answer.
    pub fn not_found(msg: &str) -> (r: Self)
        ensures
            r.status == 404,
            r.message@ == msg@,
    {
        ApiError { status: 404, message: msg.to_owned() }
    }

    /// A 400 answer.
    pub fn bad_request(msg: &str) -> (r: Self)
        ensures
            r.status == 400,
            r.message@ == msg@,
    {
        ApiError { status: 400, message: msg.to_owned() }
    }

    /// A 401 answer.
    pub fn unauthorized(msg: &str) -> (r: Self)
        ensures
            r.status == 401,
            r.message@ == msg@,
    {
        ApiError { status: 401, message: msg.to_owned() }
    }

    /// A 500 answer.
    pub fn internal(msg: &str) -> (r: Self)
        ensures
            r.status == 500,
            r.message@ == msg@,
    {
        ApiError { status: 500, message: msg.to_owned() }
    }

    /// A 503 answer.
    pub fn service_unavailable(msg: &str) -> (r: Self)
        ensures
            r.status == 503,
            r.message@ == msg@,
    {
        ApiError { status: 503, message: msg.to_owned() }
    }

    /// The status and message answered for a domain error.
    pub fn from_error(err: Error) -> (r: Self)
        ensures
            (r.status, r.message@) == api_error_for(err),
    {
        match err {
            Error::NotFound(m) => ApiError { status: 404, message: m },
            Error::PermissionDenied(m) => ApiError { status: 401, message: m },
            Error::InvalidInput(m) => ApiError { status: 400, message: m },
            other => {
                let message = other.describe();
                ApiError { status: 500, message }
            },
        }
    }
}

/// Status and message of the API error for a domain error: not found is
/// 404, permission denied 401, invalid input 400, anything else 500 with the
/// error's text.
pub open spec fn api_error_for(e: Error) -> (u16, Seq<char>) {
    match e {
        Error::NotFound(m) => (404, m@),
        Error::PermissionDenied(m) => (401, m@),
        Error::InvalidInput(m) => (400, m@),
        _ => (500, error_text(e)),
    }
}

} // verus!
