//! Bearer-token authentication: roles, a signed compact token codec, the
//! request filter that turns an `Authorization` header into a subject, the
//! rejection shaper, and the demonstration user table.
pub mod base64url;
pub mod bytes;
pub mod claims;
pub mod error;
pub mod filter;
pub mod rejection;
pub mod role;
pub mod signing;
pub mod token;
pub mod users;
