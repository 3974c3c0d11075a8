//! The request filter: from the value of an `Authorization` header to the
//! authenticated subject, or the error kind that rejects the request.
use vstd::prelude::*;
use vstd::utf8::{encode_utf8, valid_utf8};

use crate::bytes::{copy_range, has_at};
use crate::error::Error;
use crate::role::Role;
use crate::signing::utf8_string;
use crate::token::{verify_outcome, verify_token_bytes};

verus! {

/// `Bearer ` with its one space.
pub open spec fn bearer_prefix() -> Seq<u8> {
    seq![66u8, 101, 97, 114, 101, 114, 32]
}

pub open spec fn header_view(header: Option<&[u8]>) -> Option<Seq<u8>> {
    match header {
        Some(v) => Some(v@),
        None => None,
    }
}

/// What the filter yields for a header value (`None` when the header is
/// absent): the subject's bytes or the error kind.
pub open spec fn authorize_outcome(header: Option<Seq<u8>>, need: Role, key: Seq<u8>, now: u64) -> Result<
    Seq<u8>,
    Error,
> {
    match header {
        None => Err(Error::NoAuthHeaderError),
        Some(v) => if !valid_utf8(v) || v.len() < 7 || v.take(7) != bearer_prefix() {
            Err(Error::InvalidAuthHeaderError)
        } else {
            verify_outcome(v.skip(7), need, key, now)
        },
    }
}

/// Authorizes a request by its `Authorization` header value against the
/// required role, with the signing key and the current time.
pub fn authorize(header: Option<&[u8]>, need: &Role, key: &[u8], now: u64) -> (r: Result<
    String,
    Error,
>)
    ensures
        match (r, authorize_outcome(header_view(header), *need, key@, now)) {
            (Ok(s), Ok(b)) => encode_utf8(s@) == b,
            (Err(e), Err(f)) => e == f,
            _ => false,
        },
{
    let v = match header {
        Some(v) => v,
        None => return Err(Error::NoAuthHeaderError),
    };
    if utf8_string(v).is_none() {
        return Err(Error::InvalidAuthHeaderError);
    }
    let bearer: [u8; 7] = [66u8, 101, 97, 114, 101, 114, 32];
    assert(bearer@ =~= bearer_prefix());
    if !has_at(v, 0, bearer.as_slice()) {
        proof {
            if v@.len() >= 7 {
                assert(v@.take(7) =~= v@.subrange(0, 7));
            }
        }
        return Err(Error::InvalidAuthHeaderError);
    }
    assert(v@.take(7) =~= v@.subrange(0, 7));
    let t = copy_range(v, 7, v.len());
    assert(t@ =~= v@.skip(7));
    verify_token_bytes(t.as_slice(), need, key, now)
}

} // verus!
