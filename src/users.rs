//! The user table, login, and the handlers behind the protected routes.
use vstd::prelude::*;
use vstd::string::{StringExecFns, StringSliceAdditionalSpecFns};
use vstd::utf8::encode_utf8;

use crate::error::Error;
use crate::role::{role_of_text, Role};
use crate::token::{create_jwt, token_bytes, TOKEN_LIFETIME};

verus! {

/// A registered user.
pub struct User {
    pub uid: String,
    pub email: String,
    pub pass: String,
    pub role: String,
    pub otp_secret: Option<String>,
}

/// The credentials of a login request.
pub struct LoginRequest {
    pub email: String,
    pub pw: String,
}

/// The reply to a successful login.
pub struct LoginResponse {
    pub token: String,
}

/// What the admin listing shows of a user: no password, no OTP secret.
pub struct UserInfo {
    pub uid: String,
    pub email: String,
    pub role: String,
}

pub open spec fn credentials_match(u: User, email: Seq<char>, pw: Seq<char>) -> bool {
    u.email@ == email && u.pass@ == pw
}

/// `i` is the first user whose email and password are the given ones.
pub open spec fn is_first_match(users: Seq<User>, email: Seq<char>, pw: Seq<char>, i: int) -> bool {
    0 <= i < users.len() && credentials_match(users[i], email, pw) && forall|j: int|
        0 <= j < i ==> !credentials_match(#[trigger] users[j], email, pw)
}

/// Uids are unique in the table.
pub open spec fn uids_unique(users: Seq<User>) -> bool {
    forall|i: int, j: int|
        0 <= i < users.len() && 0 <= j < users.len() && i != j ==> users[i].uid@ != users[j].uid@
}

/// The login outcome for a user found by their credentials: a token for
/// the user's uid and role, or a creation error.
pub open spec fn login_issued(u: User, r: Result<LoginResponse, Error>, key: Seq<u8>, now: u64) -> bool {
    if u.uid@.len() == 0 || now > u64::MAX - TOKEN_LIFETIME {
        r == Err::<LoginResponse, Error>(Error::JWTTokenCreationError)
    } else {
        r matches Ok(resp) && encode_utf8(resp.token@) == token_bytes(
            key,
            encode_utf8(u.uid@),
            role_of_text(encode_utf8(u.role@)),
            (now + TOKEN_LIFETIME) as u64,
        )
    }
}

fn seed_user(uid: &str, email: &str, pass: &str, role: &str) -> (r: User)
    ensures
        r.uid@ == uid@,
        r.email@ == email@,
        r.pass@ == pass@,
        r.role@ == role@,
        r.otp_secret is None,
{
    User {
        uid: String::from_str(uid),
        email: String::from_str(email),
        pass: String::from_str(pass),
        role: String::from_str(role),
        otp_secret: None,
    }
}

/// The demonstration table: a regular user and an admin.
pub fn init_users() -> (r: Vec<User>)
    ensures
        r@.len() == 2,
        r@[0].uid@ == "1"@,
        r@[0].email@ == "user@testuser.com"@,
        r@[0].pass@ == "1234"@,
        r@[0].role@ == "User"@,
        r@[0].otp_secret is None,
        r@[1].uid@ == "2"@,
        r@[1].email@ == "admin@adminland.com"@,
        r@[1].pass@ == "4321"@,
        r@[1].role@ == "Admin"@,
        r@[1].otp_secret is None,
        uids_unique(r@),
{
    let mut users: Vec<User> = Vec::new();
    users.push(seed_user("1", "user@testuser.com", "1234", "User"));
    users.push(seed_user("2", "admin@adminland.com", "4321", "Admin"));
    proof {
        reveal_strlit("1");
        reveal_strlit("2");
        assert("1"@[0] != "2"@[0]);
        assert("1"@ != "2"@);
    }
    users
}

/// The index of the first user with the given credentials.
pub fn find_user(users: &Vec<User>, email: &String, pw: &String) -> (r: Option<usize>)
    ensures
        match r {
            Some(i) => is_first_match(users@, email@, pw@, i as int),
            None => forall|i: int|
                0 <= i < users@.len() ==> !credentials_match(#[trigger] users@[i], email@, pw@),
        },
{
    let mut i: usize = 0;
    while i < users.len()
        invariant
            i <= users@.len(),
            forall|j: int| 0 <= j < i ==> !credentials_match(#[trigger] users@[j], email@, pw@),
        decreases users@.len() - i,
    {
        if users[i].email == *email && users[i].pass == *pw {
            return Some(i);
        }
        i = i + 1;
    }
    None
}

/// Logs a user in: a token for the first user whose email and password are
/// those of the request, or `WrongCredentialsError` when there is none.
pub fn login_handler(users: &Vec<User>, body: &LoginRequest, secret: &[u8], now: u64) -> (r: Result<
    LoginResponse,
    Error,
>)
    ensures
        (forall|i: int|
            0 <= i < users@.len() ==> !credentials_match(#[trigger] users@[i], body.email@, body.pw@))
            ==> r == Err::<LoginResponse, Error>(Error::WrongCredentialsError),
        forall|i: int|
            is_first_match(users@, body.email@, body.pw@, i) ==> login_issued(
                #[trigger] users@[i],
                r,
                secret@,
                now,
            ),
{
    match find_user(users, &body.email, &body.pw) {
        None => Err(Error::WrongCredentialsError),
        Some(i) => {
            let user = &users[i];
            let role = Role::from_str(user.role.as_str());
            let r = match create_jwt(user.uid.as_str(), &role, secret, now) {
                Ok(token) => Ok(LoginResponse { token }),
                Err(e) => Err(e),
            };
            proof {
                assert forall|k: int| is_first_match(users@, body.email@, body.pw@, k) implies k
                    == i by {
                    if k < i {
                        assert(!credentials_match(users@[k], body.email@, body.pw@));
                    }
                    if i < k {
                        assert(!credentials_match(users@[i as int], body.email@, body.pw@));
                    }
                }
            }
            r
        },
    }
}

/// Greets an authenticated user.
pub fn user_handler(uid: &str) -> (r: String)
    ensures
        r@ == "Hello Users "@ + uid@,
{
    String::from_str("Hello Users ").concat(uid)
}

/// Greets an authenticated admin.
pub fn admin_handler(uid: &str) -> (r: String)
    ensures
        r@ == "Hello Admin "@ + uid@,
{
    String::from_str("Hello Admin ").concat(uid)
}

/// The listing shown to admins: uid, email and role of every user, in table order.
pub fn admin_users_handler(users: &Vec<User>) -> (r: Vec<UserInfo>)
    ensures
        r@.len() == users@.len(),
        forall|i: int|
            0 <= i < users@.len() ==> (#[trigger] r@[i]).uid@ == users@[i].uid@ && r@[i].email@
                == users@[i].email@ && r@[i].role@ == users@[i].role@,
{
    let mut out: Vec<UserInfo> = Vec::new();
    let mut i: usize = 0;
    while i < users.len()
        invariant
            i <= users@.len(),
            out@.len() == i,
            forall|k: int|
                0 <= k < i ==> (#[trigger] out@[k]).uid@ == users@[k].uid@ && out@[k].email@
                    == users@[k].email@ && out@[k].role@ == users@[k].role@,
        decreases users@.len() - i,
    {
        let u = &users[i];
        out.push(UserInfo { uid: u.uid.clone(), email: u.email.clone(), role: u.role.clone() });
        i = i + 1;
    }
    out
}

} // verus!
