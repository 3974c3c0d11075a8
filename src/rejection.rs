//! Maps each way a request can be rejected to an HTTP status and a JSON error body.
use vstd::prelude::*;
use vstd::string::StringExecFns;

use crate::error::{error_text, Error};

verus! {

/// Why a request was rejected: no route matched, one of the library's
/// errors, a method no route accepts, or anything else.
#[derive(Clone, Copy, Debug, PartialEq, Eq, Structural)]
pub enum Rejection {
    NotFound,
    Custom(Error),
    MethodNotAllowed,
    Unhandled,
}

/// The response for a rejection: the numeric status, the status rendered as
/// text, and the message of the JSON body.
pub struct ErrorReply {
    pub code: u16,
    pub status: String,
    pub message: String,
}

pub open spec fn reply_code(r: Rejection) -> u16 {
    match r {
        Rejection::NotFound => 404,
        Rejection::Custom(Error::WrongCredentialsError) => 403,
        Rejection::Custom(Error::NoPermissionError) => 401,
        Rejection::Custom(Error::JWTTokenError) => 401,
        Rejection::Custom(Error::JWTTokenCreationError) => 500,
        Rejection::Custom(Error::NoAuthHeaderError) => 400,
        Rejection::Custom(Error::InvalidAuthHeaderError) => 400,
        Rejection::MethodNotAllowed => 405,
        Rejection::Unhandled => 500,
    }
}

/// The short text of each status code in use.
pub open spec fn status_text(code: u16) -> Seq<char> {
    if code == 400 {
        "400 Bad Request"@
    } else if code == 401 {
        "401 Unauthorized"@
    } else if code == 403 {
        "403 Forbidden"@
    } else if code == 404 {
        "404 Not Found"@
    } else if code == 405 {
        "405 Method Not Allowed"@
    } else {
        "500 Internal Server Error"@
    }
}

pub open spec fn reply_message(r: Rejection) -> Seq<char> {
    match r {
        Rejection::NotFound => "Not Found"@,
        Rejection::Custom(Error::JWTTokenCreationError) => "Internal Server Error"@,
        Rejection::Custom(e) => error_text(e),
        Rejection::MethodNotAllowed => "Method not allowed!"@,
        Rejection::Unhandled => "Internal server Error"@,
    }
}

fn status_string(code: u16) -> (r: String)
    ensures
        r@ == status_text(code),
{
    if code == 400 {
        String::from_str("400 Bad Request")
    } else if code == 401 {
        String::from_str("401 Unauthorized")
    } else if code == 403 {
        String::from_str("403 Forbidden")
    } else if code == 404 {
        String::from_str("404 Not Found")
    } else if code == 405 {
        String::from_str("405 Method Not Allowed")
    } else {
        String::from_str("500 Internal Server Error")
    }
}

/// Shapes a rejection into its status and error body; defined for every rejection.
pub fn handle_rejection(err: &Rejection) -> (r: ErrorReply)
    ensures
        r.code == reply_code(*err),
        r.status@ == status_text(reply_code(*err)),
        r.message@ == reply_message(*err),
{
    let (code, message) = match err {
        Rejection::NotFound => (404u16, String::from_str("Not Found")),
        Rejection::Custom(e) => match e {
            Error::WrongCredentialsError => (403u16, e.message()),
            Error::NoPermissionError => (401u16, e.message()),
            Error::JWTTokenError => (401u16, e.message()),
            Error::JWTTokenCreationError => (500u16, String::from_str("Internal Server Error")),
            _ => (400u16, e.message()),
        },
        Rejection::MethodNotAllowed => (405u16, String::from_str("Method not allowed!")),
        Rejection::Unhandled => (500u16, String::from_str("Internal server Error")),
    };
    ErrorReply { code, status: status_string(code), message }
}

} // verus!
