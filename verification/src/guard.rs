//! The session guard: per-request authorization of an administrator.
//!
//! The guard composes the stateless token check with the stateful store
//! lookup: extract the bearer token from the authorization header, verify
//! signature and expiry, resolve the token to a stored user, and require
//! the administrator flag. Every failure is either "unauthenticated" or,
//! for a valid session without privilege, "forbidden".

use crate::backend::first_token_match;
use crate::backend::has_token;
use crate::backend::Backend;
use crate::digits::lemma_dec_digits_props;
use crate::errors::Error;
use crate::str_eq;
use crate::tokenizer::lemma_fresh_token_valid;
use crate::tokenizer::token_of;
use crate::tokenizer::token_valid;
use crate::tokenizer::Tokenizer;
use crate::types::ApiKey;
use vstd::prelude::*;

verus! {

/// The sequence with its leading spaces removed.
pub open spec fn trim_leading(s: Seq<char>) -> Seq<char>
    decreases s.len(),
{
    if s.len() > 0 && s[0] == ' ' {
        trim_leading(s.drop_first())
    } else {
        s
    }
}

/// The sequence with its trailing spaces removed.
pub open spec fn trim_trailing(s: Seq<char>) -> Seq<char>
    decreases s.len(),
{
    if s.len() > 0 && s.last() == ' ' {
        trim_trailing(s.drop_last())
    } else {
        s
    }
}

/// The sequence with leading and trailing spaces removed.
pub open spec fn trim_spaces(s: Seq<char>) -> Seq<char> {
    trim_trailing(trim_leading(s))
}

/// The token an authorization header carries: the part after the `Bearer`
/// prefix, stripped of surrounding spaces; nothing for a header without
/// that prefix.
pub open spec fn bearer_token(h: Seq<char>) -> Option<Seq<char>> {
    if h.len() >= 6 && h.take(6) == seq!['B', 'e', 'a', 'r', 'e', 'r'] {
        Some(trim_spaces(h.skip(6)))
    } else {
        None
    }
}

/// Dropping a run of leading spaces computes `trim_leading`.
proof fn lemma_trim_leading_at(s: Seq<char>, k: int)
    requires
        0 <= k <= s.len(),
        forall|j: int| 0 <= j < k ==> s[j] == ' ',
        k < s.len() ==> s[k] != ' ',
    ensures
        trim_leading(s) == s.skip(k),
    decreases k,
{
    if k == 0 {
        assert(s.skip(0) =~= s);
    } else {
        let t = s.drop_first();
        assert forall|j: int| 0 <= j < k - 1 implies t[j] == ' ' by {
            assert(t[j] == s[j + 1]);
        }
        assert(k - 1 < t.len() ==> t[k - 1] == s[k]);
        lemma_trim_leading_at(t, k - 1);
        assert(t.skip(k - 1) =~= s.skip(k));
    }
}

/// Dropping a run of trailing spaces computes `trim_trailing`.
proof fn lemma_trim_trailing_at(s: Seq<char>, m: int)
    requires
        0 <= m <= s.len(),
        forall|j: int| m <= j < s.len() ==> s[j] == ' ',
        m > 0 ==> s[m - 1] != ' ',
    ensures
        trim_trailing(s) == s.take(m),
    decreases s.len() - m,
{
    if (s.len() as int) > m {
        let t = s.drop_last();
        assert(s.last() == ' ');
        assert forall|j: int| m <= j < t.len() implies t[j] == ' ' by {
            assert(t[j] == s[j]);
        }
        lemma_trim_trailing_at(t, m);
        assert(t.take(m) =~= s.take(m));
    } else {
        assert(s.take(m) =~= s);
    }
}

/// Strip leading and trailing spaces from a string.
fn trim_ascii_spaces(s: &str) -> (r: String)
    ensures
        r@ == trim_spaces(s@),
{
    let n = s.unicode_len();
    let mut start: usize = 0;
    while start < n && s.get_char(start) == ' '
        invariant
            0 <= start <= n,
            n as nat == s@.len(),
            forall|j: int| 0 <= j < start ==> s@[j] == ' ',
        decreases n - start,
    {
        start = start + 1;
    }
    proof {
        lemma_trim_leading_at(s@, start as int);
    }
    let mut end: usize = n;
    while end > start && s.get_char(end - 1) == ' '
        invariant
            start <= end <= n,
            n as nat == s@.len(),
            forall|j: int| end <= j < n ==> s@[j] == ' ',
            forall|j: int| 0 <= j < start ==> s@[j] == ' ',
            start < n ==> s@[start as int] != ' ',
        decreases end,
    {
        end = end - 1;
    }
    let out = s.substring_char(start, end).to_owned();
    proof {
        let rest = s@.skip(start as int);
        assert forall|j: int| end - start <= j < rest.len() implies rest[j] == ' ' by {
            assert(rest[j] == s@[j + start]);
        }
        if end > start {
            assert(rest[end - start - 1] == s@[end as int - 1]);
        }
        lemma_trim_trailing_at(rest, end - start);
        assert(out@ =~= rest.take(end - start));
    }
    out
}

/// A canonical bearer header built around a space-free token hands back
/// exactly that token.
pub proof fn lemma_bearer_round_trip(t: Seq<char>)
    requires
        t.len() > 0,
        forall|i: int| 0 <= i < t.len() ==> t[i] != ' ',
    ensures
        bearer_token(seq!['B', 'e', 'a', 'r', 'e', 'r', ' '] + t) == Some(t),
{
    let h = seq!['B', 'e', 'a', 'r', 'e', 'r', ' '] + t;
    assert(h.take(6) =~= seq!['B', 'e', 'a', 'r', 'e', 'r']);
    let rest = h.skip(6);
    assert(rest =~= seq![' '] + t);
    assert(rest.drop_first() =~= t);
    assert(trim_leading(t) == t);
    assert(trim_leading(rest) == trim_leading(t));
    assert(t.last() != ' ');
    assert(trim_trailing(t) == t);
}

/// The guard's view of a freshly issued token: a canonical bearer header
/// around it parses back to exactly that token, and the token passes the
/// stateless check precisely while `now` has not passed its expiry. The
/// space-freeness hypothesis is what `generate_at` states of every token
/// it issues.
pub proof fn lemma_guard_on_issued_token(key: Seq<char>, expiry: u64, now: u64)
    requires
        forall|i: int|
            0 <= i < token_of(key, expiry as nat).len() ==> #[trigger] token_of(
                key,
                expiry as nat,
            )[i] != ' ',
    ensures
        bearer_token(seq!['B', 'e', 'a', 'r', 'e', 'r', ' '] + token_of(key, expiry as nat))
            == Some(token_of(key, expiry as nat)),
        token_valid(key, token_of(key, expiry as nat), now as nat) <==> now <= expiry,
{
    let t = token_of(key, expiry as nat);
    lemma_dec_digits_props(expiry as nat);
    assert(t.len() > 0);
    lemma_bearer_round_trip(t);
    lemma_fresh_token_valid(key, expiry, now);
}

impl ApiKey {
    /// Authorize one request from its authorization header: succeed
    /// exactly when the header carries a bearer token that passes the
    /// stateless check at time `now` and is the current session token of
    /// a stored administrator. A valid session of a non-administrator is
    /// forbidden; every other failure is unauthenticated.
    pub fn from_request(
        header: Option<&str>,
        tokenizer: &Tokenizer,
        backend: &Backend,
        now: u64,
    ) -> (r: Result<ApiKey, Error>)
        requires
            backend.wf(),
        ensures
            r is Ok <==> (header matches Some(h) && bearer_token(h@) matches Some(t)
                && token_valid(tokenizer.key@, t, now as nat) && has_token(backend@, t)
                && backend@[first_token_match(backend@, t)].is_admin),
            r matches Ok(k) ==> (header matches Some(h) && bearer_token(h@) matches Some(t)
                && k.token@ == t),
            r == Err::<ApiKey, Error>(Error::ForbiddenAccess) <==> (header matches Some(h)
                && bearer_token(h@) matches Some(t) && token_valid(tokenizer.key@, t, now as nat)
                && has_token(backend@, t) && !backend@[first_token_match(backend@, t)].is_admin),
            r matches Err(e) ==> e == Error::UnauthenticatedUser || e == Error::ForbiddenAccess,
    {
        let h = match header {
            Some(h) => h,
            None => {
                return Err(Error::UnauthenticatedUser);
            },
        };
        let n = h.unicode_len();
        if n < 6 {
            return Err(Error::UnauthenticatedUser);
        }
        let prefix = h.substring_char(0, 6);
        proof {
            reveal_strlit("Bearer");
            assert("Bearer"@ =~= seq!['B', 'e', 'a', 'r', 'e', 'r']);
            assert(prefix@ =~= h@.take(6));
        }
        if !str_eq(prefix, "Bearer") {
            return Err(Error::UnauthenticatedUser);
        }
        let rest = h.substring_char(6, n);
        proof {
            assert(rest@ =~= h@.skip(6));
        }
        let token = trim_ascii_spaces(rest);
        match tokenizer.verify_at(token.as_str(), now) {
            Err(_) => Err(Error::UnauthenticatedUser),
            Ok(_) => match backend.find_user_by_token(token.as_str()) {
                Err(_) => Err(Error::UnauthenticatedUser),
                Ok(user) => {
                    if user.is_admin {
                        Ok(ApiKey { token })
                    } else {
                        Err(Error::ForbiddenAccess)
                    }
                },
            },
        }
    }
}

} // verus!
