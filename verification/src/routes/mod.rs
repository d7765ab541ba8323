//! What the proxy answers.

use vstd::prelude::*;
use vstd::string::*;

use crate::json::{Json, Object, Tree};

pub mod admin;
pub mod proxy;
pub mod proxy_laws;
pub mod stream;
pub mod stream_laws;
pub mod translate;
pub mod translate_laws;

verus! {

/// An error that a caller is answered with.
#[derive(Debug)]
pub struct ApiError {
    pub status: u16,
    pub message: String,
}

/// The name of an error, by its status.
pub open spec fn error_type(status: u16) -> Seq<char> {
    if status == 400 {
        "invalid_request_error"@
    } else if status == 401 {
        "authentication_error"@
    } else if status == 403 {
        "permission_error"@
    } else if status == 404 {
        "not_found_error"@
    } else if status == 413 {
        "request_too_large"@
    } else if status == 429 {
        "rate_limit_error"@
    } else if status == 529 {
        "overloaded_error"@
    } else {
        "api_error"@
    }
}

/// The body of an error.
pub open spec fn error_body(status: u16, message: Seq<char>) -> Tree {
    Tree::Object(
        map![
            "type"@ => Tree::Text("error"@),
            "error"@ => Tree::Object(
                map![
                    "type"@ => Tree::Text(error_type(status)),
                    "message"@ => Tree::Text(message),
                ],
            ),
        ],
    )
}

impl ApiError {
    /// The error has that status and that message.
    pub open spec fn is(self, status: u16, message: Seq<char>) -> bool {
        self.status == status && self.message@ == message
    }

    pub fn new(status: u16, message: &str) -> (error: ApiError)
        ensures
            error.is(status, message@),
    {
        ApiError { status, message: message.to_owned() }
    }

    pub fn unauthorized() -> (error: ApiError)
        ensures
            error.is(401, "Unauthorized"@),
    {
        ApiError::new(401, "Unauthorized")
    }

    pub fn not_found(msg: &str) -> (error: ApiError)
        ensures
            error.is(404, msg@),
    {
        ApiError::new(404, msg)
    }

    pub fn bad_request(msg: &str) -> (error: ApiError)
        ensures
            error.is(400, msg@),
    {
        ApiError::new(400, msg)
    }

    pub fn rate_limited() -> (error: ApiError)
        ensures
            error.is(429, "Rate limit exceeded"@),
    {
        ApiError::new(429, "Rate limit exceeded")
    }

    /// The status and the body that the error is answered with.
    pub fn into_response(self) -> (response: (u16, Json))
        ensures
            response.0 == self.status,
            response.1@ == error_body(self.status, self.message@),
    {
        let status: u16 = self.status;
        let kind: &str = if status == 400 {
            "invalid_request_error"
        } else if status == 401 {
            "authentication_error"
        } else if status == 403 {
            "permission_error"
        } else if status == 404 {
            "not_found_error"
        } else if status == 413 {
            "request_too_large"
        } else if status == 429 {
            "rate_limit_error"
        } else if status == 529 {
            "overloaded_error"
        } else {
            "api_error"
        };
        let mut error: Object = Object::new();
        error.insert("type", Json::text(kind));
        error.insert("message", Json::Text(self.message));
        let mut body: Object = Object::new();
        body.insert("type", Json::text("error"));
        body.insert("error", Json::Object(error));
        (status, Json::Object(body))
    }
}

/// The names of an error and of its members are distinct.
proof fn lemma_error_names()
    ensures
        "type"@.len() == 4,
        "error"@.len() == 5,
        "message"@.len() == 7,
{
    reveal_strlit("type");
    reveal_strlit("error");
    reveal_strlit("message");
    assert("type"@.len() == 4);
    assert("error"@.len() == 5);
    assert("message"@.len() == 7);
}

/// A caller is told what kind of error it is, by the status alone, and the
/// message as it is.
pub proof fn law_errors_are_told(status: u16, message: Seq<char>)
    ensures
        error_body(status, message).at("type"@) == Tree::Text("error"@),
        error_body(status, message).at("error"@).at("message"@) == Tree::Text(message),
        error_body(status, message).at("error"@).at("type"@) == Tree::Text(
            match status {
                400 => "invalid_request_error"@,
                401 => "authentication_error"@,
                403 => "permission_error"@,
                404 => "not_found_error"@,
                413 => "request_too_large"@,
                429 => "rate_limit_error"@,
                529 => "overloaded_error"@,
                _ => "api_error"@,
            },
        ),
{
    lemma_error_names();
}

} // verus!
