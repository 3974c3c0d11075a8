use hmac::{Hmac, Mac};
use sha2::Sha512;
use user_auth::base64url::{decode, encode};
use user_auth::claims::{claims_payload, header_bytes, parse_payload};
use user_auth::error::Error;
use user_auth::role::Role;
use user_auth::token::{create_jwt, verify_jwt, TOKEN_LIFETIME};

const KEY: &[u8] = b"test-secret";
const NOW: u64 = 1_700_000_000;

fn segments(t: &str) -> Vec<String> {
    t.split('.').map(|s| s.to_string()).collect()
}

#[test]
fn base64url_known_values() {
    assert_eq!(encode(b""), b"".to_vec());
    assert_eq!(encode(b"f"), b"Zg".to_vec());
    assert_eq!(encode(b"fo"), b"Zm8".to_vec());
    assert_eq!(encode(b"foo"), b"Zm9v".to_vec());
    assert_eq!(encode(b"foobar"), b"Zm9vYmFy".to_vec());
    assert_eq!(encode(&[0xfb, 0xff]), b"-_8".to_vec());
}

#[test]
fn base64url_decode_round_trip_and_rejects() {
    for input in [&b""[..], b"a", b"ab", b"abc", b"abcd", b"\x00\xff\x10\x80\x7f"] {
        assert_eq!(decode(&encode(input)), Some(input.to_vec()));
    }
    assert_eq!(decode(b"Z"), None);
    assert_eq!(decode(b"Zm9v!"), None);
    assert_eq!(decode(b"Zm+v"), None);
    assert_eq!(decode(b"Zm=="), None);
}

#[test]
fn header_text_and_segment() {
    assert_eq!(header_bytes(), br#"{"typ":"JWT","alg":"HS512"}"#.to_vec());
    assert_eq!(encode(&header_bytes()), b"eyJ0eXAiOiJKV1QiLCJhbGciOiJIUzUxMiJ9".to_vec());
}

#[test]
fn payload_text_exact() {
    assert_eq!(
        claims_payload(b"1", b"User", 123),
        br#"{"sub":"1","role":"User","exp":123}"#.to_vec()
    );
    assert_eq!(
        claims_payload(b"a\"b\\c\n", b"Admin", 0),
        br#"{"sub":"a\"b\\c\u000a","role":"Admin","exp":0}"#.to_vec()
    );
}

#[test]
fn payload_parse_round_trip() {
    let p = claims_payload(b"x\"\\\x01y", b"Admin", u64::MAX);
    assert_eq!(parse_payload(&p), Some((b"x\"\\\x01y".to_vec(), b"Admin".to_vec(), u64::MAX)));
    assert_eq!(parse_payload(br#"{"sub":"1","role":"User","exp":18446744073709551616}"#), None);
    assert_eq!(parse_payload(br#"{"sub":"1","role":"User","exp":12a}"#), None);
    assert_eq!(parse_payload(br#"{"sub":"1","role":"User"}"#), None);
    assert_eq!(parse_payload(br#"{"role":"User","sub":"1","exp":1}"#), None);
}

#[test]
fn create_then_verify_same_role() {
    for role in [Role::User, Role::Admin] {
        let t = create_jwt("1", &role, KEY, NOW).unwrap();
        assert_eq!(verify_jwt(&t, &role, KEY, NOW), Ok("1".to_string()));
        assert_eq!(verify_jwt(&t, &role, KEY, NOW + TOKEN_LIFETIME - 1), Ok("1".to_string()));
    }
    let t = create_jwt("ünï \"q\"", &Role::User, KEY, NOW).unwrap();
    assert_eq!(verify_jwt(&t, &Role::User, KEY, NOW), Ok("ünï \"q\"".to_string()));
}

#[test]
fn signature_is_hmac_sha512_of_first_two_segments() {
    let t = create_jwt("1", &Role::User, KEY, NOW).unwrap();
    let seg = segments(&t);
    assert_eq!(seg.len(), 3);
    let mut mac = <Hmac<Sha512> as Mac>::new_from_slice(KEY).unwrap();
    mac.update(format!("{}.{}", seg[0], seg[1]).as_bytes());
    let tag = mac.finalize().into_bytes().to_vec();
    assert_eq!(tag.len(), 64);
    assert_eq!(decode(seg[2].as_bytes()), Some(tag));
}

#[test]
fn flipped_signature_bit_is_token_error() {
    let t = create_jwt("1", &Role::Admin, KEY, NOW).unwrap();
    let seg = segments(&t);
    let sig = decode(seg[2].as_bytes()).unwrap();
    for bit in [0usize, 7, 100, 511] {
        let mut forged = sig.clone();
        forged[bit / 8] ^= 1 << (bit % 8);
        let ft = format!("{}.{}.{}", seg[0], seg[1], String::from_utf8(encode(&forged)).unwrap());
        assert_eq!(verify_jwt(&ft, &Role::User, KEY, NOW), Err(Error::JWTTokenError));
    }
    let mut text = t.into_bytes();
    let last = text.len() - 1;
    text[last] ^= 1;
    let ft = String::from_utf8(text).unwrap();
    assert_eq!(verify_jwt(&ft, &Role::User, KEY, NOW), Err(Error::JWTTokenError));
}

#[test]
fn other_key_is_token_error() {
    let t = create_jwt("1", &Role::User, KEY, NOW).unwrap();
    assert_eq!(verify_jwt(&t, &Role::User, b"other", NOW), Err(Error::JWTTokenError));
}

#[test]
fn expired_token_is_token_error() {
    let t = create_jwt("1", &Role::Admin, KEY, NOW - 120).unwrap();
    assert_eq!(verify_jwt(&t, &Role::User, KEY, NOW), Err(Error::JWTTokenError));
    let t = create_jwt("1", &Role::User, KEY, NOW).unwrap();
    assert_eq!(verify_jwt(&t, &Role::User, KEY, NOW + TOKEN_LIFETIME), Err(Error::JWTTokenError));
}

#[test]
fn user_token_lacks_admin() {
    let t = create_jwt("7", &Role::User, KEY, NOW).unwrap();
    assert_eq!(verify_jwt(&t, &Role::Admin, KEY, NOW), Err(Error::NoPermissionError));
}

#[test]
fn expired_user_token_for_admin_is_token_error() {
    let t = create_jwt("7", &Role::User, KEY, NOW - 120).unwrap();
    assert_eq!(verify_jwt(&t, &Role::Admin, KEY, NOW), Err(Error::JWTTokenError));
}

#[test]
fn admin_token_serves_both_roles() {
    let t = create_jwt("2", &Role::Admin, KEY, NOW).unwrap();
    assert_eq!(verify_jwt(&t, &Role::User, KEY, NOW), Ok("2".to_string()));
    assert_eq!(verify_jwt(&t, &Role::Admin, KEY, NOW), Ok("2".to_string()));
}

#[test]
fn segments_decode_to_header_and_payload() {
    let t = create_jwt("1", &Role::User, KEY, NOW).unwrap();
    let seg = segments(&t);
    assert_eq!(seg.len(), 3);
    assert_eq!(decode(seg[0].as_bytes()), Some(br#"{"typ":"JWT","alg":"HS512"}"#.to_vec()));
    let expected = format!(r#"{{"sub":"1","role":"User","exp":{}}}"#, NOW + 60);
    assert_eq!(decode(seg[1].as_bytes()), Some(expected.into_bytes()));
}

#[test]
fn creation_errors() {
    assert_eq!(create_jwt("", &Role::User, KEY, NOW), Err(Error::JWTTokenCreationError));
    assert_eq!(
        create_jwt("1", &Role::User, KEY, u64::MAX - TOKEN_LIFETIME + 1),
        Err(Error::JWTTokenCreationError)
    );
    assert!(create_jwt("1", &Role::User, KEY, u64::MAX - TOKEN_LIFETIME).is_ok());
}

#[test]
fn malformed_tokens_are_token_errors() {
    for t in ["", "abc", "a.b", "a.b.c", "..", "eyJ0eXAiOiJKV1QiLCJhbGciOiJIUzUxMiJ9.e30.x"] {
        assert_eq!(verify_jwt(t, &Role::User, KEY, NOW), Err(Error::JWTTokenError));
    }
}

#[test]
fn same_second_tokens_are_identical() {
    let a = create_jwt("1", &Role::User, KEY, NOW).unwrap();
    let b = create_jwt("1", &Role::User, KEY, NOW).unwrap();
    let c = create_jwt("1", &Role::User, KEY, NOW + 1).unwrap();
    assert_eq!(a, b);
    assert_ne!(a, c);
}
