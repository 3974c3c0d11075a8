use vstd::prelude::*;
use vstd::string::StringSliceAdditionalSpecFns;

use crate::bytes::bytes_equal;

verus! {

/// Authorization level carried by a token.
#[derive(Clone, Copy, Debug, PartialEq, Eq, Structural)]
pub enum Role {
    User,
    Admin,
}

/// The textual encoding of a role, as bytes.
pub open spec fn role_text(r: Role) -> Seq<u8> {
    match r {
        Role::User => seq![85u8, 115, 101, 114],
        Role::Admin => seq![65u8, 100, 109, 105, 110],
    }
}

/// Lenient decoding: exactly `Admin` is the admin role, anything else is a user.
pub open spec fn role_of_text(t: Seq<u8>) -> Role {
    if t == role_text(Role::Admin) {
        Role::Admin
    } else {
        Role::User
    }
}

/// Whether holding `have` suffices where `need` is required.
pub open spec fn role_dominates(have: Role, need: Role) -> bool {
    have == Role::Admin || need == Role::User
}

/// Decoding inverts encoding.
pub proof fn lemma_role_text_round_trip(r: Role)
    ensures
        role_of_text(role_text(r)) == r,
{
    assert(role_text(Role::User) != role_text(Role::Admin)) by {
        assert(role_text(Role::User).len() != role_text(Role::Admin).len());
    }
}

impl Role {
    /// Decodes a role name; any name other than `Admin` gives `User`.
    pub fn from_str(role: &str) -> (r: Role)
        ensures
            r == role_of_text(role.spec_bytes()),
    {
        Role::from_text(role.as_bytes())
    }

    /// Decodes a role name given as bytes.
    pub fn from_text(role: &[u8]) -> (r: Role)
        ensures
            r == role_of_text(role@),
    {
        let admin: [u8; 5] = [65u8, 100, 109, 105, 110];
        assert(admin@ =~= role_text(Role::Admin));
        if bytes_equal(role, admin.as_slice()) {
            Role::Admin
        } else {
            Role::User
        }
    }

    /// The role's name as bytes.
    pub fn text(&self) -> (r: Vec<u8>)
        ensures
            r@ == role_text(*self),
    {
        match self {
            Role::User => {
                let v: Vec<u8> = vec![85u8, 115, 101, 114];
                assert(v@ =~= role_text(Role::User));
                v
            },
            Role::Admin => {
                let v: Vec<u8> = vec![65u8, 100, 109, 105, 110];
                assert(v@ =~= role_text(Role::Admin));
                v
            },
        }
    }

    /// Whether this role satisfies a requirement of `need`.
    pub fn dominates(&self, need: &Role) -> (r: bool)
        ensures
            r == role_dominates(*self, *need),
    {
        match (self, need) {
            (Role::Admin, _) => true,
            (Role::User, Role::User) => true,
            (Role::User, Role::Admin) => false,
        }
    }
}

} // verus!
