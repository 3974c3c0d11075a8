//! The error kinds of login and of request authorization.
use vstd::prelude::*;
use vstd::string::StringExecFns;

verus! {

/// One value per distinguishable cause of a rejected request.
#[derive(Clone, Copy, Debug, PartialEq, Eq, Structural)]
pub enum Error {
    WrongCredentialsError,
    JWTTokenCreationError,
    JWTTokenError,
    NoAuthHeaderError,
    NoPermissionError,
    InvalidAuthHeaderError,
}

/// The human-readable text of each error kind.
pub open spec fn error_text(e: Error) -> Seq<char> {
    match e {
        Error::WrongCredentialsError => "Wrong credentials"@,
        Error::JWTTokenCreationError => "JWT token - Creation Error"@,
        Error::JWTTokenError => "JWT token not valid"@,
        Error::NoAuthHeaderError => "No auth header"@,
        Error::NoPermissionError => "No permission"@,
        Error::InvalidAuthHeaderError => "Invalid auth error!"@,
    }
}

impl Error {
    /// The error's text.
    pub fn message(&self) -> (r: String)
        ensures
            r@ == error_text(*self),
    {
        match self {
            Error::WrongCredentialsError => String::from_str("Wrong credentials"),
            Error::JWTTokenCreationError => String::from_str("JWT token - Creation Error"),
            Error::JWTTokenError => String::from_str("JWT token not valid"),
            Error::NoAuthHeaderError => String::from_str("No auth header"),
            Error::NoPermissionError => String::from_str("No permission"),
            Error::InvalidAuthHeaderError => String::from_str("Invalid auth error!"),
        }
    }
}

} // verus!
