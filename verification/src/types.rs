//! The user record and the request/response shapes around it.

use vstd::prelude::*;

verus! {

/// Mathematical image of a stored user row: each field as a plain value.
pub ghost struct UserView {
    pub username: Seq<char>,
    pub email: Seq<char>,
    pub password: Seq<char>,
    pub is_admin: bool,
    pub token: Option<Seq<char>>,
}

/// A stored user row. `username` is the unique key; `password` holds the
/// hashed form, never plaintext; `token` holds the one currently valid
/// session token, or nothing if the user never logged in.
#[derive(Debug)]
pub struct User {
    pub username: String,
    pub email: String,
    pub password: String,
    pub is_admin: bool,
    pub token: Option<String>,
}

impl View for User {
    type V = UserView;

    open spec fn view(&self) -> UserView {
        UserView {
            username: self.username@,
            email: self.email@,
            password: self.password@,
            is_admin: self.is_admin,
            token: match self.token {
                Some(t) => Some(t@),
                None => None,
            },
        }
    }
}

impl Clone for User {
    /// A clone denotes the same row.
    fn clone(&self) -> (r: Self)
        ensures
            r@ == self@,
    {
        User {
            username: self.username.clone(),
            email: self.email.clone(),
            password: self.password.clone(),
            is_admin: self.is_admin,
            token: match &self.token {
                Some(t) => Some(t.clone()),
                None => None,
            },
        }
    }
}

/// The projection of a user handed out by listings: no password hash, no
/// session token.
#[derive(Debug, Clone)]
pub struct PartialUser {
    pub username: String,
    pub email: String,
    pub is_admin: bool,
}

impl core::convert::From<User> for PartialUser {
    fn from(user: User) -> (r: Self) {
        PartialUser { username: user.username, email: user.email, is_admin: user.is_admin }
    }
}

impl vstd::std_specs::convert::FromSpecImpl<User> for PartialUser {
    open spec fn obeys_from_spec() -> bool {
        true
    }

    open spec fn from_spec(user: User) -> Self {
        PartialUser { username: user.username, email: user.email, is_admin: user.is_admin }
    }
}

/// The transient (username, plaintext password) pair presented at login;
/// compared against the store only after hashing.
#[derive(Debug, Clone)]
pub struct UserCredendials {
    pub username: String,
    pub password: String,
}

/// The payload of a password change: the current plaintext and its
/// replacement.
#[derive(Debug, Clone)]
pub struct NewPassword {
    pub current: String,
    pub new: String,
}

/// The capability yielded by a successful authorization: the verified
/// bearer token, reusable to re-resolve the acting user.
#[derive(Debug, Clone)]
pub struct ApiKey {
    pub token: String,
}

} // verus!
