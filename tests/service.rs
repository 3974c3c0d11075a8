use user_auth::error::Error;
use user_auth::filter::authorize;
use user_auth::rejection::{handle_rejection, Rejection};
use user_auth::role::Role;
use user_auth::token::create_jwt;
use user_auth::users::{
    admin_handler, admin_users_handler, find_user, init_users, login_handler, user_handler,
    LoginRequest,
};
use user_auth::base64url::decode;

const KEY: &[u8] = b"test-secret";
const NOW: u64 = 1_700_000_000;

fn login(email: &str, pw: &str) -> Result<String, Error> {
    let users = init_users();
    let body = LoginRequest { email: email.to_string(), pw: pw.to_string() };
    login_handler(&users, &body, KEY, NOW).map(|r| r.token)
}

fn reply(e: Error) -> (u16, String, String) {
    let r = handle_rejection(&Rejection::Custom(e));
    (r.code, r.status, r.message)
}

#[test]
fn role_text_decoding() {
    assert_eq!(Role::from_str("Admin"), Role::Admin);
    assert_eq!(Role::from_str("User"), Role::User);
    assert_eq!(Role::from_str("admin"), Role::User);
    assert_eq!(Role::from_str(""), Role::User);
    assert_eq!(Role::Admin.text(), b"Admin".to_vec());
    assert_eq!(Role::User.text(), b"User".to_vec());
}

#[test]
fn role_domination() {
    assert!(Role::Admin.dominates(&Role::Admin));
    assert!(Role::Admin.dominates(&Role::User));
    assert!(Role::User.dominates(&Role::User));
    assert!(!Role::User.dominates(&Role::Admin));
}

#[test]
fn rejection_table() {
    let cases = [
        (Rejection::NotFound, 404, "404 Not Found", "Not Found"),
        (Rejection::Custom(Error::WrongCredentialsError), 403, "403 Forbidden", "Wrong credentials"),
        (Rejection::Custom(Error::NoPermissionError), 401, "401 Unauthorized", "No permission"),
        (Rejection::Custom(Error::JWTTokenError), 401, "401 Unauthorized", "JWT token not valid"),
        (
            Rejection::Custom(Error::JWTTokenCreationError),
            500,
            "500 Internal Server Error",
            "Internal Server Error",
        ),
        (Rejection::Custom(Error::NoAuthHeaderError), 400, "400 Bad Request", "No auth header"),
        (
            Rejection::Custom(Error::InvalidAuthHeaderError),
            400,
            "400 Bad Request",
            "Invalid auth error!",
        ),
        (Rejection::MethodNotAllowed, 405, "405 Method Not Allowed", "Method not allowed!"),
        (Rejection::Unhandled, 500, "500 Internal Server Error", "Internal server Error"),
    ];
    for (rej, code, status, message) in cases {
        let r = handle_rejection(&rej);
        assert_eq!(r.code, code);
        assert_eq!(r.status, status);
        assert_eq!(r.message, message);
    }
}

#[test]
fn error_messages() {
    assert_eq!(Error::JWTTokenCreationError.message(), "JWT token - Creation Error");
    assert_eq!(Error::NoAuthHeaderError.message(), "No auth header");
}

#[test]
fn seed_table() {
    let users = init_users();
    assert_eq!(users.len(), 2);
    assert_eq!(users[0].uid, "1");
    assert_eq!(users[0].email, "user@testuser.com");
    assert_eq!(users[1].uid, "2");
    assert_eq!(users[1].role, "Admin");
    assert!(users[1].otp_secret.is_none());
    assert_eq!(find_user(&users, &"admin@adminland.com".to_string(), &"4321".to_string()), Some(1));
    assert_eq!(find_user(&users, &"admin@adminland.com".to_string(), &"1234".to_string()), None);
    assert_eq!(find_user(&Vec::new(), &"a".to_string(), &"b".to_string()), None);
}

#[test]
fn login_issues_user_token() {
    let t = login("user@testuser.com", "1234").unwrap();
    let seg: Vec<&str> = t.split('.').collect();
    assert_eq!(seg.len(), 3);
    let payload = String::from_utf8(decode(seg[1].as_bytes()).unwrap()).unwrap();
    assert_eq!(payload, format!(r#"{{"sub":"1","role":"User","exp":{}}}"#, NOW + 60));
}

#[test]
fn login_wrong_password() {
    assert_eq!(login("user@testuser.com", "wrong"), Err(Error::WrongCredentialsError));
    assert_eq!(
        reply(Error::WrongCredentialsError),
        (403, "403 Forbidden".to_string(), "Wrong credentials".to_string())
    );
}

#[test]
fn user_route_with_user_token() {
    let t = login("user@testuser.com", "1234").unwrap();
    let header = format!("Bearer {}", t);
    let uid = authorize(Some(header.as_bytes()), &Role::User, KEY, NOW).unwrap();
    assert_eq!(user_handler(&uid), "Hello Users 1");
}

#[test]
fn admin_route_with_user_token() {
    let t = login("user@testuser.com", "1234").unwrap();
    let header = format!("Bearer {}", t);
    let e = authorize(Some(header.as_bytes()), &Role::Admin, KEY, NOW).unwrap_err();
    assert_eq!(e, Error::NoPermissionError);
    assert_eq!(reply(e), (401, "401 Unauthorized".to_string(), "No permission".to_string()));
}

#[test]
fn admin_route_with_admin_token() {
    let t = login("admin@adminland.com", "4321").unwrap();
    let header = format!("Bearer {}", t);
    let uid = authorize(Some(header.as_bytes()), &Role::Admin, KEY, NOW).unwrap();
    assert_eq!(admin_handler(&uid), "Hello Admin 2");
}

#[test]
fn user_route_without_header() {
    let e = authorize(None, &Role::User, KEY, NOW).unwrap_err();
    assert_eq!(e, Error::NoAuthHeaderError);
    assert_eq!(reply(e), (400, "400 Bad Request".to_string(), "No auth header".to_string()));
}

#[test]
fn user_route_with_token_scheme() {
    let e = authorize(Some(b"Token abc"), &Role::User, KEY, NOW).unwrap_err();
    assert_eq!(e, Error::InvalidAuthHeaderError);
    assert_eq!(reply(e).2, "Invalid auth error!");
}

#[test]
fn bearer_prefix_is_exact() {
    let t = create_jwt("1", &Role::User, KEY, NOW).unwrap();
    for header in [format!("bearer {}", t), format!("Bearer{}", t), "Bearer".to_string()] {
        assert_eq!(
            authorize(Some(header.as_bytes()), &Role::User, KEY, NOW),
            Err(Error::InvalidAuthHeaderError)
        );
    }
    assert_eq!(authorize(Some(b"Bearer "), &Role::User, KEY, NOW), Err(Error::JWTTokenError));
    assert_eq!(
        authorize(Some(b"Bearer \xff\xfe"), &Role::User, KEY, NOW),
        Err(Error::InvalidAuthHeaderError)
    );
}

#[test]
fn admin_listing_has_seed_users() {
    let t = login("admin@adminland.com", "4321").unwrap();
    let header = format!("Bearer {}", t);
    assert!(authorize(Some(header.as_bytes()), &Role::Admin, KEY, NOW).is_ok());
    let users = init_users();
    let list = admin_users_handler(&users);
    let mut seen: Vec<(String, String, String)> =
        list.into_iter().map(|u| (u.uid, u.email, u.role)).collect();
    seen.sort();
    assert_eq!(
        seen,
        vec![
            ("1".to_string(), "user@testuser.com".to_string(), "User".to_string()),
            ("2".to_string(), "admin@adminland.com".to_string(), "Admin".to_string()),
        ]
    );
}

#[test]
fn expired_token_on_user_route() {
    let t = create_jwt("1", &Role::User, KEY, NOW - 120).unwrap();
    let header = format!("Bearer {}", t);
    let e = authorize(Some(header.as_bytes()), &Role::User, KEY, NOW).unwrap_err();
    assert_eq!(e, Error::JWTTokenError);
    assert_eq!(reply(e).2, "JWT token not valid");
}
