//! The operation flows behind the service's routes, free of any transport:
//! login with session replacement, guarded provisioning, deletion and
//! listing, and password change through a valid session.

use crate::backend::first_token_match;
use crate::backend::has_credentials;
use crate::backend::has_token;
use crate::backend::has_username;
use crate::backend::lemma_unique_username_lookup;
use crate::backend::username_index;
use crate::backend::usernames_unique;
use crate::backend::Backend;
use crate::errors::Error;
use crate::hash;
use crate::sha256_hex_of;
use crate::tokenizer::lemma_distinct_expiry_distinct_token;
use crate::tokenizer::token_of;
use crate::tokenizer::Tokenizer;
use crate::types::ApiKey;
use crate::types::NewPassword;
use crate::types::PartialUser;
use crate::types::User;
use crate::types::UserCredendials;
use crate::types::UserView;
use vstd::prelude::*;

verus! {

/// The login flow: hash the supplied password, look the user up by
/// username and hashed password, mint a fresh token expiring one lifetime
/// after `now`, and atomically overwrite the user's stored token — the
/// point of session replacement. Succeeds exactly when the credentials
/// match a stored row.
pub fn authenticate_user(
    credentials: UserCredendials,
    tokenizer: &Tokenizer,
    backend: &mut Backend,
    now: u64,
) -> (r: Result<ApiKey, Error>)
    requires
        old(backend).wf(),
        now + tokenizer.lifetime_secs <= u64::MAX,
    ensures
        final(backend).wf(),
        r is Ok <==> has_credentials(
            old(backend)@,
            credentials.username@,
            sha256_hex_of(credentials.password@),
        ),
        r matches Ok(k) ==> ({
            let rows = old(backend)@;
            let idx = username_index(rows, credentials.username@);
            let tok = token_of(tokenizer.key@, (now + tokenizer.lifetime_secs) as nat);
            k.token@ == tok && final(backend)@ == rows.update(
                idx,
                UserView { token: Some(tok), ..rows[idx] },
            )
        }),
        r matches Err(e) ==> e == Error::NotFound && final(backend)@ == old(backend)@,
{
    let hashed = hash(credentials.password.as_str());
    let lookup = UserCredendials { username: credentials.username.clone(), password: hashed };
    match backend.find_user(lookup) {
        Err(_) => Err(Error::NotFound),
        Ok(user) => {
            proof {
                lemma_unique_username_lookup(backend@, user@);
            }
            let token = tokenizer.generate_at(now);
            let mut updated = user;
            updated.token = Some(token.clone());
            match backend.update_user(updated) {
                Ok(_) => Ok(ApiKey { token }),
                Err(e) => Err(e),
            }
        },
    }
}

/// The provisioning flow: with a valid administrator session, hash the
/// new user's plaintext password and insert the row; the store's unique
/// key makes a duplicate username fail distinguishably.
pub fn add_user(user: User, api_key: Result<ApiKey, Error>, backend: &mut Backend) -> (r: Result<
    (),
    Error,
>)
    requires
        old(backend).wf(),
    ensures
        final(backend).wf(),
        api_key matches Err(e) ==> r == Err::<(), Error>(e) && final(backend)@ == old(backend)@,
        api_key is Ok ==> ({
            let stored = UserView { password: sha256_hex_of(user@.password), ..user@ };
            if has_username(old(backend)@, user@.username) {
                r == Err::<(), Error>(Error::DuplicateKey) && final(backend)@ == old(backend)@
            } else {
                r is Ok && final(backend)@ == old(backend)@.push(stored)
            }
        }),
{
    if let Err(e) = api_key {
        return Err(e);
    }
    let hashed = hash(user.password.as_str());
    let mut stored = user;
    stored.password = hashed;
    backend.add_user(stored)
}

/// The deletion flow: with a valid administrator session, remove the row
/// carrying the username, or report that none does.
pub fn delete_user(username: String, api_key: Result<ApiKey, Error>, backend: &mut Backend) -> (r:
    Result<(), Error>)
    requires
        old(backend).wf(),
    ensures
        final(backend).wf(),
        api_key matches Err(e) ==> r == Err::<(), Error>(e) && final(backend)@ == old(backend)@,
        api_key is Ok ==> ({
            if has_username(old(backend)@, username@) {
                r is Ok && final(backend)@ == old(backend)@.remove(
                    username_index(old(backend)@, username@),
                )
            } else {
                r == Err::<(), Error>(Error::NotFound) && final(backend)@ == old(backend)@
            }
        }),
{
    if let Err(e) = api_key {
        return Err(e);
    }
    backend.delete_user(username.as_str())
}

/// The listing hands out exactly the projections of the stored rows, in
/// stored order.
pub open spec fn projects_rows(v: Seq<PartialUser>, rows: Seq<UserView>) -> bool {
    v.len() == rows.len() && forall|i: int|
        0 <= i < rows.len() ==> (#[trigger] v[i]).username@ == rows[i].username
            && v[i].email@ == rows[i].email && v[i].is_admin == rows[i].is_admin
}

/// The listing flow: with a valid administrator session, the projections
/// of all stored rows, in stored order — no password hashes, no tokens.
pub fn get_all_users(backend: &Backend, api_key: Result<ApiKey, Error>) -> (r: Result<
    Vec<PartialUser>,
    Error,
>)
    ensures
        api_key matches Err(e) ==> r == Err::<Vec<PartialUser>, Error>(e),
        api_key is Ok ==> r is Ok && projects_rows(r->Ok_0@, backend@),
{
    if let Err(e) = api_key {
        return Err(e);
    }
    let users = match backend.list_users() {
        Ok(users) => users,
        Err(e) => {
            return Err(e);
        },
    };
    let n = users.len();
    let mut out: Vec<PartialUser> = Vec::new();
    let mut i: usize = 0;
    while i < n
        invariant
            0 <= i <= n,
            n as nat == users@.len(),
            users@.len() == backend@.len(),
            forall|k: int| 0 <= k < backend@.len() ==> #[trigger] users@[k]@ == backend@[k],
            out@.len() == i,
            forall|k: int|
                0 <= k < i ==> (#[trigger] out@[k]).username@ == backend@[k].username
                    && out@[k].email@ == backend@[k].email && out@[k].is_admin
                    == backend@[k].is_admin,
        decreases n - i,
    {
        let projected = PartialUser::from(users[i].clone());
        out.push(projected);
        i = i + 1;
    }
    proof {
        assert(projects_rows(out@, backend@));
    }
    Ok(out)
}

/// The password-change flow: re-resolve the acting user by the session's
/// token, demand the current password, and store the hash of the new one;
/// the session token itself is left untouched.
pub fn change_user_password(
    password: NewPassword,
    api_key: Result<ApiKey, Error>,
    backend: &mut Backend,
) -> (r: Result<(), Error>)
    requires
        old(backend).wf(),
    ensures
        final(backend).wf(),
        api_key matches Err(e) ==> r == Err::<(), Error>(e) && final(backend)@ == old(backend)@,
        api_key matches Ok(k) ==> ({
            let rows = old(backend)@;
            if !has_token(rows, k.token@) {
                r == Err::<(), Error>(Error::NotFound) && final(backend)@ == rows
            } else {
                let row = rows[first_token_match(rows, k.token@)];
                if row.password == sha256_hex_of(password.current@) {
                    r is Ok && final(backend)@ == rows.update(
                        username_index(rows, row.username),
                        UserView { password: sha256_hex_of(password.new@), ..row },
                    )
                } else {
                    (r matches Err(e2) && e2 matches Error::BadRequest(m) && m@
                        == "Invalid password"@ && final(backend)@ == rows)
                }
            }
        }),
{
    let key = match api_key {
        Ok(k) => k,
        Err(e) => {
            return Err(e);
        },
    };
    match backend.find_user_by_token(key.token.as_str()) {
        Err(_) => Err(Error::NotFound),
        Ok(user) => {
            proof {
                crate::backend::lemma_first_token_match(backend@, key.token@);
                lemma_unique_username_lookup(backend@, user@);
            }
            let hashed_current = hash(password.current.as_str());
            if user.password == hashed_current {
                let mut updated = user;
                updated.password = hash(password.new.as_str());
                match backend.update_user(updated) {
                    Ok(_) => Ok(()),
                    Err(e) => Err(e),
                }
            } else {
                Err(Error::BadRequest(String::from_str("Invalid password")))
            }
        },
    }
}

/// The typed error behind a malformed-request response.
pub fn bad_request() -> (r: Error)
    ensures
        r matches Error::BadRequest(m) && m@ == "Request is ill-formed"@,
{
    Error::BadRequest(String::from_str("Request is ill-formed"))
}

/// The typed error behind an unknown-route response.
pub fn not_found() -> (r: Error)
    ensures
        r == Error::UnknownRoute,
{
    Error::UnknownRoute
}

/// Session replacement: when two logins for the same user issue tokens
/// for distinct expiration instants, and the first token is fresh to the
/// store, then after the second login the first token no longer resolves
/// to any row while the second one does.
pub proof fn lemma_session_replacement(
    rows: Seq<UserView>,
    key: Seq<char>,
    name: Seq<char>,
    e1: nat,
    e2: nat,
)
    requires
        usernames_unique(rows),
        has_username(rows, name),
        e1 != e2,
        forall|i: int| 0 <= i < rows.len() ==> #[trigger] rows[i].token != Some(token_of(key, e1)),
    ensures
        ({
            let t1 = token_of(key, e1);
            let t2 = token_of(key, e2);
            let idx = username_index(rows, name);
            let rows1 = rows.update(idx, UserView { token: Some(t1), ..rows[idx] });
            let rows2 = rows1.update(idx, UserView { token: Some(t2), ..rows1[idx] });
            !has_token(rows2, t1) && has_token(rows2, t2)
        }),
{
    let t1 = token_of(key, e1);
    let t2 = token_of(key, e2);
    let idx = username_index(rows, name);
    let rows1 = rows.update(idx, UserView { token: Some(t1), ..rows[idx] });
    let rows2 = rows1.update(idx, UserView { token: Some(t2), ..rows1[idx] });
    lemma_distinct_expiry_distinct_token(key, e1, e2);
    assert(0 <= idx < rows.len());
    assert(rows2[idx].token == Some(t2));
    assert(has_token(rows2, t2));
    assert forall|i: int| 0 <= i < rows2.len() implies #[trigger] rows2[i].token != Some(t1) by {
        if i != idx {
            assert(rows2[i] == rows[i]);
        }
    }
}

} // verus!
