//! The signed compact token `HEADER.PAYLOAD.SIGNATURE`: each segment base64url
//! without padding, the signature an HMAC-SHA-512 tag of `HEADER.PAYLOAD`.
use vstd::prelude::*;
use vstd::string::StringSliceAdditionalSpecFns;
use vstd::utf8::{
    encode_utf8, encode_utf8_decode_utf8, encode_utf8_valid_utf8, partial_valid_utf8_extend_ascii_block,
    valid_utf8,
};

use crate::base64url::{
    all_alphabet, b64_decode, b64_encode, char_sextet, decode, encode, lemma_b64_alphabet,
    lemma_b64_injective, lemma_b64_round_trip,
};
use crate::bytes::{append_bytes, bytes_equal, copy_range};
use crate::claims::{
    claims_json, claims_payload, header_bytes, header_json, lemma_parse_claims_json, parse_claims,
    parse_payload,
};
use crate::error::Error;
use crate::role::{lemma_role_text_round_trip, role_dominates, role_of_text, role_text, Role};
use crate::signing::{hmac_sha512, hmac_sha512_of, utf8_string};

verus! {

/// Seconds from issue to expiry.
pub const TOKEN_LIFETIME: u64 = 60;

/// The encoded header segment.
pub open spec fn header_segment() -> Seq<u8> {
    b64_encode(header_json())
}

/// The encoded payload segment for a subject, a role and an expiry.
pub open spec fn payload_segment(sub: Seq<u8>, role: Role, exp: u64) -> Seq<u8> {
    b64_encode(claims_json(sub, role_text(role), exp))
}

/// `h.p`, the bytes that are signed.
pub open spec fn signing_input(h: Seq<u8>, p: Seq<u8>) -> Seq<u8> {
    h + seq![46u8] + p
}

/// The encoded signature segment of `h.p` under `key`.
pub open spec fn signature_segment(key: Seq<u8>, h: Seq<u8>, p: Seq<u8>) -> Seq<u8> {
    b64_encode(hmac_sha512_of(key, signing_input(h, p)))
}

/// The token issued for a subject (as bytes), a role and an expiry.
pub open spec fn token_bytes(key: Seq<u8>, sub: Seq<u8>, role: Role, exp: u64) -> Seq<u8> {
    let h = header_segment();
    let p = payload_segment(sub, role, exp);
    signing_input(h, p) + seq![46u8] + signature_segment(key, h, p)
}

/// The bytes before the first `.` and those after it.
pub open spec fn split_dot(s: Seq<u8>) -> Option<(Seq<u8>, Seq<u8>)>
    decreases s.len(),
{
    if s.len() == 0 {
        None
    } else if s[0] == 46 {
        Some((Seq::empty(), s.skip(1)))
    } else {
        match split_dot(s.skip(1)) {
            Some((a, b)) => Some((seq![s[0]] + a, b)),
            None => None,
        }
    }
}

/// What verifying token bytes `t` against a required role yields: the
/// subject's bytes, or the error kind. The header must be the fixed one, the
/// signature that of `key` over the first two segments, the payload well
/// formed with a UTF-8 subject, and the expiry later than `now`; then the
/// claimed role must dominate `need`.
pub open spec fn verify_outcome(t: Seq<u8>, need: Role, key: Seq<u8>, now: u64) -> Result<
    Seq<u8>,
    Error,
> {
    match split_dot(t) {
        None => Err(Error::JWTTokenError),
        Some((h, rest)) => match split_dot(rest) {
            None => Err(Error::JWTTokenError),
            Some((p, g)) => if h != header_segment() || g != signature_segment(key, h, p) {
                Err(Error::JWTTokenError)
            } else {
                match b64_decode(p) {
                    None => Err(Error::JWTTokenError),
                    Some(j) => match parse_claims(j) {
                        None => Err(Error::JWTTokenError),
                        Some((sub, rt, exp)) => if !valid_utf8(sub) || exp <= now {
                            Err(Error::JWTTokenError)
                        } else if !role_dominates(role_of_text(rt), need) {
                            Err(Error::NoPermissionError)
                        } else {
                            Ok(sub)
                        },
                    },
                }
            },
        },
    }
}

proof fn lemma_split_dot_at(s: Seq<u8>, i: int)
    requires
        0 <= i < s.len(),
        s[i] == 46,
        forall|k: int| 0 <= k < i ==> s[k] != 46,
    ensures
        split_dot(s) == Some((s.take(i), s.skip(i + 1))),
    decreases i,
{
    if i == 0 {
        assert(s.take(0) =~= Seq::<u8>::empty());
    } else {
        let t = s.skip(1);
        assert forall|k: int| 0 <= k < i - 1 implies t[k] != 46 by {
            assert(t[k] == s[k + 1]);
        }
        lemma_split_dot_at(t, i - 1);
        assert(seq![s[0]] + t.take(i - 1) =~= s.take(i));
        assert(t.skip(i) =~= s.skip(i + 1));
    }
}

proof fn lemma_split_dot_none(s: Seq<u8>)
    requires
        forall|k: int| 0 <= k < s.len() ==> s[k] != 46,
    ensures
        split_dot(s) is None,
    decreases s.len(),
{
    if s.len() > 0 {
        let t = s.skip(1);
        assert forall|k: int| 0 <= k < t.len() implies t[k] != 46 by {
            assert(t[k] == s[k + 1]);
        }
        lemma_split_dot_none(t);
    }
}

proof fn lemma_alphabet_no_dot(s: Seq<u8>)
    requires
        all_alphabet(s),
    ensures
        forall|k: int| 0 <= k < s.len() ==> s[k] != 46 && s[k] < 128,
{
    assert forall|k: int| 0 <= k < s.len() implies s[k] != 46 && s[k] < 128 by {
        assert(char_sextet(s[k]) is Some);
    }
}

/// Splits a token whose first two segments are `h` and `p` and contain no dot.
proof fn lemma_split_token(h: Seq<u8>, p: Seq<u8>, g: Seq<u8>)
    requires
        forall|k: int| 0 <= k < h.len() ==> h[k] != 46,
        forall|k: int| 0 <= k < p.len() ==> p[k] != 46,
    ensures
        split_dot(signing_input(h, p) + seq![46u8] + g) == Some((h, p + seq![46u8] + g)),
        split_dot(p + seq![46u8] + g) == Some((p, g)),
{
    let t = signing_input(h, p) + seq![46u8] + g;
    let rest = p + seq![46u8] + g;
    assert(t =~= h + seq![46u8] + rest);
    assert forall|k: int| 0 <= k < h.len() implies t[k] != 46 by {
        assert(t[k] == h[k]);
    }
    lemma_split_dot_at(t, h.len() as int);
    assert(t.take(h.len() as int) =~= h);
    assert(t.skip(h.len() as int + 1) =~= rest);
    assert forall|k: int| 0 <= k < p.len() implies rest[k] != 46 by {
        assert(rest[k] == p[k]);
    }
    lemma_split_dot_at(rest, p.len() as int);
    assert(rest.take(p.len() as int) =~= p);
    assert(rest.skip(p.len() as int + 1) =~= g);
}

proof fn lemma_segments_no_dot(sub: Seq<u8>, role: Role, exp: u64)
    ensures
        forall|k: int| 0 <= k < header_segment().len() ==> header_segment()[k] != 46,
        forall|k: int|
            0 <= k < payload_segment(sub, role, exp).len() ==> payload_segment(sub, role, exp)[k]
                != 46,
{
    lemma_b64_alphabet(header_json());
    lemma_b64_alphabet(claims_json(sub, role_text(role), exp));
    lemma_alphabet_no_dot(header_segment());
    lemma_alphabet_no_dot(payload_segment(sub, role, exp));
}

/// What verifying an issued token yields, for any required role and any time.
pub proof fn lemma_verify_issued(key: Seq<u8>, sub: Seq<u8>, role: Role, exp: u64, need: Role, now: u64)
    ensures
        verify_outcome(token_bytes(key, sub, role, exp), need, key, now) == (if !valid_utf8(sub)
            || exp <= now {
            Err(Error::JWTTokenError)
        } else if !role_dominates(role, need) {
            Err(Error::NoPermissionError)
        } else {
            Ok(sub)
        }),
{
    let h = header_segment();
    let p = payload_segment(sub, role, exp);
    lemma_segments_no_dot(sub, role, exp);
    lemma_split_token(h, p, signature_segment(key, h, p));
    lemma_b64_round_trip(claims_json(sub, role_text(role), exp));
    lemma_parse_claims_json(sub, role_text(role), exp);
    lemma_role_text_round_trip(role);
}

/// A token verifies, against the role it was issued with and before it
/// expires, to the subject it was issued for.
pub proof fn lemma_create_then_verify(key: Seq<u8>, sub: Seq<char>, role: Role, now: u64, later: u64)
    requires
        now <= u64::MAX - TOKEN_LIFETIME,
        later < now + TOKEN_LIFETIME,
    ensures
        verify_outcome(
            token_bytes(key, encode_utf8(sub), role, (now + TOKEN_LIFETIME) as u64),
            role,
            key,
            later,
        ) == Ok::<Seq<u8>, Error>(encode_utf8(sub)),
{
    encode_utf8_valid_utf8(sub);
    lemma_verify_issued(key, encode_utf8(sub), role, (now + TOKEN_LIFETIME) as u64, role, later);
}

/// Replacing the signature segment of an issued token by any other bytes
/// (a flipped bit among them) makes verification fail with a token error.
pub proof fn lemma_other_signature_rejected(
    key: Seq<u8>,
    sub: Seq<u8>,
    role: Role,
    exp: u64,
    g: Seq<u8>,
    need: Role,
    now: u64,
)
    requires
        g != signature_segment(key, header_segment(), payload_segment(sub, role, exp)),
    ensures
        verify_outcome(
            signing_input(header_segment(), payload_segment(sub, role, exp)) + seq![46u8] + g,
            need,
            key,
            now,
        ) == Err::<Seq<u8>, Error>(Error::JWTTokenError),
{
    lemma_segments_no_dot(sub, role, exp);
    lemma_split_token(header_segment(), payload_segment(sub, role, exp), g);
}

/// Signing with a tag other than the HMAC of the signed bytes (a flipped bit
/// among them) makes verification fail with a token error.
pub proof fn lemma_other_tag_rejected(
    key: Seq<u8>,
    sub: Seq<u8>,
    role: Role,
    exp: u64,
    tag: Seq<u8>,
    need: Role,
    now: u64,
)
    requires
        tag != hmac_sha512_of(
            key,
            signing_input(header_segment(), payload_segment(sub, role, exp)),
        ),
    ensures
        verify_outcome(
            signing_input(header_segment(), payload_segment(sub, role, exp)) + seq![46u8]
                + b64_encode(tag),
            need,
            key,
            now,
        ) == Err::<Seq<u8>, Error>(Error::JWTTokenError),
{
    lemma_b64_injective(
        tag,
        hmac_sha512_of(key, signing_input(header_segment(), payload_segment(sub, role, exp))),
    );
    lemma_other_signature_rejected(key, sub, role, exp, b64_encode(tag), need, now);
}

/// A token whose expiry is not after the time of verification is rejected
/// with a token error, whatever role is required.
pub proof fn lemma_expired_rejected(key: Seq<u8>, sub: Seq<u8>, role: Role, exp: u64, need: Role, now: u64)
    requires
        exp <= now,
    ensures
        verify_outcome(token_bytes(key, sub, role, exp), need, key, now) == Err::<Seq<u8>, Error>(
            Error::JWTTokenError,
        ),
{
    lemma_verify_issued(key, sub, role, exp, need, now);
}

/// A user token presented where the admin role is required is a permission
/// error, not a token error.
pub proof fn lemma_user_token_lacks_admin(key: Seq<u8>, sub: Seq<char>, now: u64, later: u64)
    requires
        now <= u64::MAX - TOKEN_LIFETIME,
        later < now + TOKEN_LIFETIME,
    ensures
        verify_outcome(
            token_bytes(key, encode_utf8(sub), Role::User, (now + TOKEN_LIFETIME) as u64),
            Role::Admin,
            key,
            later,
        ) == Err::<Seq<u8>, Error>(Error::NoPermissionError),
{
    encode_utf8_valid_utf8(sub);
    lemma_verify_issued(
        key,
        encode_utf8(sub),
        Role::User,
        (now + TOKEN_LIFETIME) as u64,
        Role::Admin,
        later,
    );
}

/// An admin token satisfies both a user and an admin requirement.
pub proof fn lemma_admin_token_satisfies_all(key: Seq<u8>, sub: Seq<char>, need: Role, now: u64, later: u64)
    requires
        now <= u64::MAX - TOKEN_LIFETIME,
        later < now + TOKEN_LIFETIME,
    ensures
        verify_outcome(
            token_bytes(key, encode_utf8(sub), Role::Admin, (now + TOKEN_LIFETIME) as u64),
            need,
            key,
            later,
        ) == Ok::<Seq<u8>, Error>(encode_utf8(sub)),
{
    encode_utf8_valid_utf8(sub);
    lemma_verify_issued(key, encode_utf8(sub), Role::Admin, (now + TOKEN_LIFETIME) as u64, need, later);
}

/// The segments of an issued token split apart at its two dots and decode to
/// exactly the header text and the claims payload text.
pub proof fn lemma_issued_segments_decode(key: Seq<u8>, sub: Seq<u8>, role: Role, exp: u64)
    ensures
        ({
            let h = header_segment();
            let p = payload_segment(sub, role, exp);
            let g = signature_segment(key, h, p);
            &&& split_dot(token_bytes(key, sub, role, exp)) == Some((h, p + seq![46u8] + g))
            &&& split_dot(p + seq![46u8] + g) == Some((p, g))
            &&& b64_decode(h) == Some(header_json())
            &&& b64_decode(p) == Some(claims_json(sub, role_text(role), exp))
        }),
{
    let h = header_segment();
    let p = payload_segment(sub, role, exp);
    lemma_segments_no_dot(sub, role, exp);
    lemma_split_token(h, p, signature_segment(key, h, p));
    lemma_b64_round_trip(header_json());
    lemma_b64_round_trip(claims_json(sub, role_text(role), exp));
}

/// A string is determined by its UTF-8 bytes: the subject that verification
/// returns is the very string the token was issued for.
pub proof fn lemma_subject_from_bytes(a: Seq<char>, b: Seq<char>)
    requires
        encode_utf8(a) == encode_utf8(b),
    ensures
        a == b,
{
    encode_utf8_decode_utf8(a);
    encode_utf8_decode_utf8(b);
}

fn find_dot(t: &[u8], from: usize) -> (r: Option<usize>)
    requires
        from <= t@.len(),
    ensures
        match r {
            Some(k) => from <= k < t@.len() && t@[k as int] == 46 && forall|m: int|
                from <= m < k ==> t@[m] != 46,
            None => forall|m: int| from <= m < t@.len() ==> t@[m] != 46,
        },
{
    let mut i: usize = from;
    while i < t.len()
        invariant
            from <= i <= t@.len(),
            forall|m: int| from <= m < i ==> t@[m] != 46,
        decreases t@.len() - i,
    {
        if t[i] == 46 {
            return Some(i);
        }
        i = i + 1;
    }
    None
}

proof fn lemma_ascii_valid_utf8(b: Seq<u8>)
    requires
        forall|k: int| 0 <= k < b.len() ==> b[k] < 128,
    ensures
        valid_utf8(b),
{
    assert(b.subrange(0, 0) =~= Seq::<u8>::empty());
    assert(valid_utf8(Seq::<u8>::empty()));
    partial_valid_utf8_extend_ascii_block(b, 0, b.len() as int);
    assert(b.subrange(0, b.len() as int) =~= b);
}

/// Issues a token for subject `uid` with `role`, signed with `secret`,
/// expiring `TOKEN_LIFETIME` seconds after `now`. An empty subject, or an
/// expiry past the largest timestamp, is a creation error.
pub fn create_jwt(uid: &str, role: &Role, secret: &[u8], now: u64) -> (r: Result<String, Error>)
    ensures
        uid@.len() == 0 || now > u64::MAX - TOKEN_LIFETIME ==> r == Err::<String, Error>(
            Error::JWTTokenCreationError,
        ),
        uid@.len() > 0 && now <= u64::MAX - TOKEN_LIFETIME ==> (r matches Ok(t) && encode_utf8(t@)
            == token_bytes(secret@, uid.spec_bytes(), *role, (now + TOKEN_LIFETIME) as u64)),
{
    if uid.is_empty() || now > u64::MAX - TOKEN_LIFETIME {
        return Err(Error::JWTTokenCreationError);
    }
    let exp = now + TOKEN_LIFETIME;
    let rt = role.text();
    let payload = claims_payload(uid.as_bytes(), rt.as_slice(), exp);
    let hj = header_bytes();
    let h = encode(hj.as_slice());
    let p = encode(payload.as_slice());
    let mut input: Vec<u8> = Vec::new();
    append_bytes(&mut input, h.as_slice());
    input.push(46);
    append_bytes(&mut input, p.as_slice());
    assert(input@ =~= signing_input(h@, p@));
    let tag = match hmac_sha512(secret, input.as_slice()) {
        Some(x) => x,
        None => return Err(Error::JWTTokenCreationError),
    };
    let g = encode(tag.as_slice());
    let mut tb: Vec<u8> = Vec::new();
    append_bytes(&mut tb, input.as_slice());
    tb.push(46);
    append_bytes(&mut tb, g.as_slice());
    proof {
        assert(tb@ =~= token_bytes(secret@, uid.spec_bytes(), *role, exp));
        lemma_b64_alphabet(header_json());
        lemma_b64_alphabet(payload@);
        lemma_b64_alphabet(tag@);
        lemma_alphabet_no_dot(h@);
        lemma_alphabet_no_dot(p@);
        lemma_alphabet_no_dot(g@);
        assert forall|k: int| 0 <= k < tb@.len() implies tb@[k] < 128 by {
            if k < h@.len() {
                assert(tb@[k] == h@[k]);
            } else if k == h@.len() {
            } else if k < h@.len() + 1 + p@.len() {
                assert(tb@[k] == p@[k - h@.len() - 1]);
            } else if k == h@.len() + 1 + p@.len() {
            } else {
                assert(tb@[k] == g@[k - h@.len() - 2 - p@.len()]);
            }
        }
        lemma_ascii_valid_utf8(tb@);
    }
    match utf8_string(tb.as_slice()) {
        Some(s) => Ok(s),
        None => Err(Error::JWTTokenCreationError),
    }
}

/// Verifies token bytes against a required role; see `verify_outcome`.
pub fn verify_token_bytes(t: &[u8], need: &Role, key: &[u8], now: u64) -> (r: Result<String, Error>)
    ensures
        match (r, verify_outcome(t@, *need, key@, now)) {
            (Ok(s), Ok(b)) => encode_utf8(s@) == b,
            (Err(e), Err(f)) => e == f,
            _ => false,
        },
{
    let n = t.len();
    let i = match find_dot(t, 0) {
        Some(i) => i,
        None => {
            proof {
                lemma_split_dot_none(t@);
            }
            return Err(Error::JWTTokenError);
        },
    };
    let ghost rest = t@.skip(i + 1);
    proof {
        lemma_split_dot_at(t@, i as int);
    }
    let j = match find_dot(t, i + 1) {
        Some(j) => j,
        None => {
            proof {
                assert forall|k: int| 0 <= k < rest.len() implies rest[k] != 46 by {
                    assert(rest[k] == t@[i + 1 + k]);
                }
                lemma_split_dot_none(rest);
            }
            return Err(Error::JWTTokenError);
        },
    };
    let h = copy_range(t, 0, i);
    let p = copy_range(t, i + 1, j);
    let g = copy_range(t, j + 1, n);
    let input = copy_range(t, 0, j);
    proof {
        assert forall|k: int| 0 <= k < j - i - 1 implies rest[k] != 46 by {
            assert(rest[k] == t@[i + 1 + k]);
        }
        lemma_split_dot_at(rest, j - i - 1);
        assert(h@ =~= t@.take(i as int));
        assert(rest.take(j - i - 1) =~= p@);
        assert(rest.skip(j - i) =~= g@);
        assert(input@ =~= signing_input(h@, p@));
    }
    let hj = header_bytes();
    let hs = encode(hj.as_slice());
    if !bytes_equal(h.as_slice(), hs.as_slice()) {
        return Err(Error::JWTTokenError);
    }
    let tag = match hmac_sha512(key, input.as_slice()) {
        Some(x) => x,
        None => return Err(Error::JWTTokenError),
    };
    let expected = encode(tag.as_slice());
    if !bytes_equal(g.as_slice(), expected.as_slice()) {
        return Err(Error::JWTTokenError);
    }
    let json = match decode(p.as_slice()) {
        Some(x) => x,
        None => return Err(Error::JWTTokenError),
    };
    assert(json.deep_view() =~= json@);
    let (sub, rt, exp) = match parse_payload(json.as_slice()) {
        Some(c) => c,
        None => return Err(Error::JWTTokenError),
    };
    let s = match utf8_string(sub.as_slice()) {
        Some(s) => s,
        None => return Err(Error::JWTTokenError),
    };
    if exp <= now {
        return Err(Error::JWTTokenError);
    }
    let claimed = Role::from_text(rt.as_slice());
    if !claimed.dominates(need) {
        return Err(Error::NoPermissionError);
    }
    Ok(s)
}

/// Verifies a token against a required role at time `now`: the subject, or
/// the error kind, exactly as `verify_outcome` gives them.
pub fn verify_jwt(token: &str, role: &Role, secret: &[u8], now: u64) -> (r: Result<String, Error>)
    ensures
        match (r, verify_outcome(token.spec_bytes(), *role, secret@, now)) {
            (Ok(s), Ok(b)) => encode_utf8(s@) == b,
            (Err(e), Err(f)) => e == f,
            _ => false,
        },
{
    verify_token_bytes(token.as_bytes(), role, secret, now)
}

} // verus!
