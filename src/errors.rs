//! Errors that the request handlers report, and the body sent for them.
use vstd::prelude::*;
use vstd::string::StringExecFns;

verus! {

/// The JSON body of an error response.
#[derive(Debug)]
pub struct ApiErrorBody {
    pub error: String,
    pub message: String,
}

/// What a request handler can fail with, each with its message.
#[derive(Debug)]
pub enum ApiError {
    BadRequest(String),
    Unauthorized(String),
    Forbidden(String),
    NotFound(String),
    Conflict(String),
    Internal(String),
}

impl ApiError {
    /// The message the error carries.
    pub open spec fn message_spec(&self) -> Seq<char> {
        match self {
            ApiError::BadRequest(m) => m@,
            ApiError::Unauthorized(m) => m@,
            ApiError::Forbidden(m) => m@,
            ApiError::NotFound(m) => m@,
            ApiError::Conflict(m) => m@,
            ApiError::Internal(m) => m@,
        }
    }

    /// The HTTP status of the response.
    pub open spec fn status_spec(&self) -> u16 {
        match self {
            ApiError::BadRequest(_) => 400,
            ApiError::Unauthorized(_) => 401,
            ApiError::Forbidden(_) => 403,
            ApiError::NotFound(_) => 404,
            ApiError::Conflict(_) => 409,
            ApiError::Internal(_) => 500,
        }
    }

    /// The words that open the error's description.
    pub open spec fn label_spec(&self) -> Seq<char> {
        match self {
            ApiError::BadRequest(_) => "bad request: "@,
            ApiError::Unauthorized(_) => "unauthorized: "@,
            ApiError::Forbidden(_) => "forbidden: "@,
            ApiError::NotFound(_) => "not found: "@,
            ApiError::Conflict(_) => "conflict: "@,
            ApiError::Internal(_) => "internal error: "@,
        }
    }

    pub fn status_code(&self) -> (r: u16)
        ensures
            r == self.status_spec(),
    {
        match self {
            ApiError::BadRequest(_) => 400,
            ApiError::Unauthorized(_) => 401,
            ApiError::Forbidden(_) => 403,
            ApiError::NotFound(_) => 404,
            ApiError::Conflict(_) => 409,
            ApiError::Internal(_) => 500,
        }
    }

    pub fn message(&self) -> (r: String)
        ensures
            r@ == self.message_spec(),
    {
        match self {
            ApiError::BadRequest(m) => m.clone(),
            ApiError::Unauthorized(m) => m.clone(),
            ApiError::Forbidden(m) => m.clone(),
            ApiError::NotFound(m) => m.clone(),
            ApiError::Conflict(m) => m.clone(),
            ApiError::Internal(m) => m.clone(),
        }
    }

    /// The error's description: its label followed by its message.
    pub fn to_string(&self) -> (r: String)
        ensures
            r@ == self.label_spec() + self.message_spec(),
    {
        let label = match self {
            ApiError::BadRequest(_) => "bad request: ",
            ApiError::Unauthorized(_) => "unauthorized: ",
            ApiError::Forbidden(_) => "forbidden: ",
            ApiError::NotFound(_) => "not found: ",
            ApiError::Conflict(_) => "conflict: ",
            ApiError::Internal(_) => "internal error: ",
        };
        let m = self.message();
        label.to_owned().concat(m.as_str())
    }

    /// The status and body of the response that reports this error.
    pub fn into_parts(&self) -> (r: (u16, ApiErrorBody))
        ensures
            r.0 == self.status_spec(),
            r.1.error@ == self.label_spec() + self.message_spec(),
            r.1.message@ == self.message_spec(),
    {
        (self.status_code(), ApiErrorBody { error: self.to_string(), message: self.message() })
    }
}

} // verus!
