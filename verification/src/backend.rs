//! The credential store: user rows keyed by unique username.
//!
//! The store upholds the uniqueness of usernames as its invariant, and its
//! update and delete touch exactly the one row their key names — the
//! exactly-one-row discipline that turns "no such user" into a typed,
//! recoverable error and makes silent multi-row corruption impossible.

use crate::errors::Error;
use crate::str_eq;
use crate::types::User;
use crate::types::UserCredendials;
use crate::types::UserView;
use vstd::prelude::*;

verus! {

/// No two rows share a username.
pub open spec fn usernames_unique(rows: Seq<UserView>) -> bool {
    forall|i: int, j: int|
        0 <= i < rows.len() && 0 <= j < rows.len() && i != j ==> #[trigger] rows[i].username
            != #[trigger] rows[j].username
}

/// Some row carries this username.
pub open spec fn has_username(rows: Seq<UserView>, name: Seq<char>) -> bool {
    exists|i: int| 0 <= i < rows.len() && #[trigger] rows[i].username == name
}

/// The index of the row carrying this username; meaningful only when
/// `has_username` holds, and then unique under `usernames_unique`.
pub open spec fn username_index(rows: Seq<UserView>, name: Seq<char>) -> int {
    choose|i: int| 0 <= i < rows.len() && #[trigger] rows[i].username == name
}

/// Some row carries both this username and this (hashed) password.
pub open spec fn has_credentials(rows: Seq<UserView>, name: Seq<char>, password: Seq<char>) -> bool {
    exists|i: int|
        0 <= i < rows.len() && #[trigger] rows[i].username == name && rows[i].password == password
}

/// Some row holds this string as its current session token.
pub open spec fn has_token(rows: Seq<UserView>, token: Seq<char>) -> bool {
    exists|i: int| 0 <= i < rows.len() && #[trigger] rows[i].token == Some(token)
}

/// The index of the first row holding this token; meaningful only when
/// `has_token` holds.
pub open spec fn first_token_match(rows: Seq<UserView>, token: Seq<char>) -> int
    decreases rows.len(),
{
    if rows.len() == 0 {
        0
    } else if rows[0].token == Some(token) {
        0
    } else {
        1 + first_token_match(rows.drop_first(), token)
    }
}

/// When a row holds the token, `first_token_match` names a valid index,
/// that index holds the token, and no earlier one does.
pub proof fn lemma_first_token_match(rows: Seq<UserView>, token: Seq<char>)
    requires
        has_token(rows, token),
    ensures
        0 <= first_token_match(rows, token) < rows.len(),
        rows[first_token_match(rows, token)].token == Some(token),
        forall|j: int| 0 <= j < first_token_match(rows, token) ==> rows[j].token != Some(token),
    decreases rows.len(),
{
    if rows.len() > 0 && rows[0].token != Some(token) {
        let t = rows.drop_first();
        assert forall|j: int| 0 <= j < t.len() implies t[j] == rows[j + 1] by {}
        assert(has_token(t, token)) by {
            let i = choose|i: int| 0 <= i < rows.len() && #[trigger] rows[i].token == Some(token);
            assert(t[i - 1].token == Some(token));
        }
        lemma_first_token_match(t, token);
        let p = first_token_match(t, token);
        assert(rows[p + 1].token == Some(token));
        assert forall|j: int| 0 <= j < p + 1 implies rows[j].token != Some(token) by {
            if j > 0 {
                assert(t[j - 1] == rows[j]);
            }
        }
    }
}

/// A found index with no earlier match is exactly `first_token_match`.
pub proof fn lemma_first_token_match_found(rows: Seq<UserView>, token: Seq<char>, i: int)
    requires
        0 <= i < rows.len(),
        rows[i].token == Some(token),
        forall|j: int| 0 <= j < i ==> rows[j].token != Some(token),
    ensures
        first_token_match(rows, token) == i,
    decreases rows.len(),
{
    if i > 0 {
        let t = rows.drop_first();
        assert forall|j: int| 0 <= j < i - 1 implies t[j].token != Some(token) by {
            assert(t[j] == rows[j + 1]);
        }
        assert(t[i - 1] == rows[i]);
        lemma_first_token_match_found(t, token, i - 1);
    }
}

/// Under unique usernames, a contained row is the row its username indexes.
pub proof fn lemma_unique_username_lookup(rows: Seq<UserView>, u: UserView)
    requires
        usernames_unique(rows),
        rows.contains(u),
    ensures
        has_username(rows, u.username),
        rows[username_index(rows, u.username)] == u,
{
    let i = choose|i: int| 0 <= i < rows.len() && rows[i] == u;
    assert(rows[i].username == u.username);
    let k = username_index(rows, u.username);
    assert(0 <= k < rows.len() && rows[k].username == u.username);
    if k != i {
        assert(rows[k].username != rows[i].username);
    }
}

/// The store of user rows. The mathematical image of a store is the
/// sequence of its rows' views, in insertion order.
pub struct Backend {
    users: Vec<User>,
}

impl View for Backend {
    type V = Seq<UserView>;

    closed spec fn view(&self) -> Seq<UserView> {
        Seq::new(self.users@.len(), |i: int| self.users@[i]@)
    }
}

impl Backend {
    /// The store's invariant: usernames are unique keys.
    pub open spec fn wf(&self) -> bool {
        usernames_unique(self@)
    }

    /// An empty store.
    pub fn new() -> (b: Backend)
        ensures
            b@ =~= Seq::<UserView>::empty(),
            b.wf(),
    {
        let b = Backend { users: Vec::new() };
        proof {
            assert(b@ =~= Seq::<UserView>::empty());
        }
        b
    }

    /// Equality lookup on username and hashed password together: returns
    /// the matching row exactly when one exists, `NotFound` otherwise.
    pub fn find_user(&self, credentials: UserCredendials) -> (r: Result<User, Error>)
        requires
            self.wf(),
        ensures
            r is Ok <==> has_credentials(self@, credentials.username@, credentials.password@),
            r matches Ok(u) ==> self@.contains(u@) && u@.username == credentials.username@
                && u@.password == credentials.password@,
            r matches Err(e) ==> e == Error::NotFound,
    {
        let n = self.users.len();
        let mut i: usize = 0;
        while i < n
            invariant
                0 <= i <= n,
                n == self.users@.len(),
                self@.len() == self.users@.len(),
                forall|k: int| 0 <= k < self.users@.len() ==> self@[k] == self.users@[k]@,
                forall|k: int|
                    0 <= k < i ==> !(#[trigger] self@[k].username == credentials.username@
                        && self@[k].password == credentials.password@),
            decreases n - i,
        {
            let row = &self.users[i];
            if row.username == credentials.username && row.password == credentials.password {
                let u = row.clone();
                proof {
                    assert(self@[i as int] == u@);
                    assert(has_credentials(self@, credentials.username@, credentials.password@))
                        by {
                        assert(self@[i as int].username == credentials.username@ && self@[
                            i as int
                        ].password == credentials.password@);
                    }
                    assert(self@.contains(u@)) by {
                        assert(self@[i as int] == u@);
                    }
                }
                return Ok(u);
            }
            i = i + 1;
        }
        proof {
            assert(!has_credentials(self@, credentials.username@, credentials.password@));
        }
        Err(Error::NotFound)
    }

    /// Equality lookup on the token field: returns the first row whose
    /// current session token is exactly the presented string. Should
    /// several rows hold the same string — possible when two logins mint
    /// tokens with the same expiration second under one key — the row
    /// stored earliest wins, as the contract's `first_token_match` says.
    pub fn find_user_by_token(&self, token: &str) -> (r: Result<User, Error>)
        requires
            self.wf(),
        ensures
            r is Ok <==> has_token(self@, token@),
            r matches Ok(u) ==> u@ == self@[first_token_match(self@, token@)],
            r matches Err(e) ==> e == Error::NotFound,
    {
        let n = self.users.len();
        let mut i: usize = 0;
        while i < n
            invariant
                0 <= i <= n,
                n == self.users@.len(),
                self@.len() == self.users@.len(),
                forall|k: int| 0 <= k < self.users@.len() ==> self@[k] == self.users@[k]@,
                forall|k: int| 0 <= k < i ==> #[trigger] self@[k].token != Some(token@),
            decreases n - i,
        {
            let row = &self.users[i];
            let hit = match &row.token {
                Some(t) => str_eq(t.as_str(), token),
                None => false,
            };
            if hit {
                let u = row.clone();
                proof {
                    assert(self@[i as int].token == Some(token@));
                    lemma_first_token_match_found(self@, token@, i as int);
                }
                return Ok(u);
            }
            i = i + 1;
        }
        Err(Error::NotFound)
    }

    /// Insert a new row; fails distinguishably when the username is
    /// already taken, and leaves the store unchanged then.
    pub fn add_user(&mut self, new_user: User) -> (r: Result<(), Error>)
        requires
            old(self).wf(),
        ensures
            final(self).wf(),
            has_username(old(self)@, new_user@.username) ==> r == Err::<(), Error>(
                Error::DuplicateKey,
            ) && final(self)@ == old(self)@,
            !has_username(old(self)@, new_user@.username) ==> r is Ok && final(self)@ == old(
                self,
            )@.push(new_user@),
    {
        let n = self.users.len();
        let mut i: usize = 0;
        while i < n
            invariant
                0 <= i <= n,
                n == self.users@.len(),
                self@.len() == self.users@.len(),
                self == old(self),
                self.wf(),
                forall|k: int| 0 <= k < self.users@.len() ==> self@[k] == self.users@[k]@,
                forall|k: int| 0 <= k < i ==> #[trigger] self@[k].username != new_user@.username,
            decreases n - i,
        {
            if self.users[i].username == new_user.username {
                proof {
                    assert(has_username(self@, new_user@.username)) by {
                        assert(self@[i as int].username == new_user@.username);
                    }
                }
                return Err(Error::DuplicateKey);
            }
            i = i + 1;
        }
        proof {
            assert(!has_username(self@, new_user@.username));
        }
        self.users.push(new_user);
        proof {
            assert(self@ =~= old(self)@.push(new_user@));
        }
        Ok(())
    }

    /// Full-row replace keyed by username, touching exactly one row:
    /// replaces the row sharing the new row's username, or reports
    /// `NotFound`. Under the store's invariant no other outcome exists.
    pub fn update_user(&mut self, user: User) -> (r: Result<User, Error>)
        requires
            old(self).wf(),
        ensures
            final(self).wf(),
            has_username(old(self)@, user@.username) ==> (r matches Ok(u) && u@ == user@
                && final(self)@ == old(self)@.update(
                username_index(old(self)@, user@.username),
                user@,
            )),
            !has_username(old(self)@, user@.username) ==> r == Err::<User, Error>(Error::NotFound)
                && final(self)@ == old(self)@,
    {
        let n = self.users.len();
        let mut i: usize = 0;
        while i < n
            invariant
                0 <= i <= n,
                n == self.users@.len(),
                self@.len() == self.users@.len(),
                self.wf(),
                self == old(self),
                forall|k: int| 0 <= k < self.users@.len() ==> self@[k] == self.users@[k]@,
                forall|k: int| 0 <= k < i ==> #[trigger] self@[k].username != user@.username,
            decreases n - i,
        {
            if self.users[i].username == user.username {
                let u = user.clone();
                proof {
                    assert(self@[i as int].username == user@.username);
                    let k = username_index(self@, user@.username);
                    assert(0 <= k < self@.len() && self@[k].username == user@.username);
                    if k != i as int {
                        assert(self@[k].username != self@[i as int].username);
                    }
                }
                self.users.set(i, user);
                proof {
                    assert(self@ =~= old(self)@.update(
                        username_index(old(self)@, u@.username),
                        u@,
                    ));
                    assert forall|a: int, b: int|
                        0 <= a < self@.len() && 0 <= b < self@.len() && a != b implies self@[a].username
                        != self@[b].username by {
                        assert(old(self)@[a].username != old(self)@[b].username);
                    }
                }
                return Ok(u);
            }
            i = i + 1;
        }
        Err(Error::NotFound)
    }

    /// Delete keyed by username, touching exactly one row: removes the
    /// row carrying the username, or reports `NotFound`. Under the
    /// store's invariant no other outcome exists.
    pub fn delete_user(&mut self, username: &str) -> (r: Result<(), Error>)
        requires
            old(self).wf(),
        ensures
            final(self).wf(),
            has_username(old(self)@, username@) ==> r is Ok && final(self)@ == old(self)@.remove(
                username_index(old(self)@, username@),
            ),
            !has_username(old(self)@, username@) ==> r == Err::<(), Error>(Error::NotFound)
                && final(self)@ == old(self)@,
    {
        let n = self.users.len();
        let mut i: usize = 0;
        while i < n
            invariant
                0 <= i <= n,
                n == self.users@.len(),
                self@.len() == self.users@.len(),
                self.wf(),
                self == old(self),
                forall|k: int| 0 <= k < self.users@.len() ==> self@[k] == self.users@[k]@,
                forall|k: int| 0 <= k < i ==> #[trigger] self@[k].username != username@,
            decreases n - i,
        {
            if str_eq(self.users[i].username.as_str(), username) {
                proof {
                    assert(self@[i as int].username == username@);
                    let k = username_index(self@, username@);
                    assert(0 <= k < self@.len() && self@[k].username == username@);
                    if k != i as int {
                        assert(self@[k].username != self@[i as int].username);
                    }
                }
                let _ = self.users.remove(i);
                proof {
                    assert(self@ =~= old(self)@.remove(username_index(old(self)@, username@)));
                    assert forall|a: int, b: int|
                        0 <= a < self@.len() && 0 <= b < self@.len() && a != b implies self@[a].username
                        != self@[b].username by {
                        let oa = if a < i as int {
                            a
                        } else {
                            a + 1
                        };
                        let ob = if b < i as int {
                            b
                        } else {
                            b + 1
                        };
                        assert(self@[a] == old(self)@[oa]);
                        assert(self@[b] == old(self)@[ob]);
                        assert(old(self)@[oa].username != old(self)@[ob].username);
                    }
                }
                return Ok(());
            }
            i = i + 1;
        }
        Err(Error::NotFound)
    }

    /// The full list of rows, in stored order.
    pub fn list_users(&self) -> (r: Result<Vec<User>, Error>)
        ensures
            r matches Ok(v) && v@.len() == self@.len() && (forall|i: int|
                0 <= i < self@.len() ==> #[trigger] v@[i]@ == self@[i]),
    {
        let n = self.users.len();
        let mut out: Vec<User> = Vec::new();
        let mut i: usize = 0;
        while i < n
            invariant
                0 <= i <= n,
                n == self.users@.len(),
                self@.len() == self.users@.len(),
                forall|k: int| 0 <= k < self.users@.len() ==> self@[k] == self.users@[k]@,
                out@.len() == i,
                forall|k: int| 0 <= k < i ==> #[trigger] out@[k]@ == self@[k],
            decreases n - i,
        {
            out.push(self.users[i].clone());
            i = i + 1;
        }
        Ok(out)
    }
}

} // verus!
