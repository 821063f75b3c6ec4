//! Issuing and verifying time-limited signed session tokens.
//!
//! A token is `<expiry>.<signature>`: the expiration instant in decimal
//! seconds since the Unix epoch, a dot, and the SHA-256 digest of
//! `<expiry>.<secret key>`. Verification is stateless: it recomputes the
//! signature from the presented expiry and the server-held key and checks
//! that the current time has not passed the expiry.

use crate::digits::all_digits;
use crate::digits::dec_digits;
use crate::digits::digit_val;
use crate::digits::lemma_dec_digits_props;
use crate::is_hex_char;
use crate::digits::parse_u64;
use crate::digits::str_to_nat;
use crate::digits::u64_to_dec;
use crate::errors::Error;
use crate::hash;
use crate::sha256_hex_of;
use std::time::SystemTime;
use std::time::UNIX_EPOCH;
use vstd::prelude::*;

verus! {

/// The position of the first `.` in a sequence, if any.
pub open spec fn dot_pos(s: Seq<char>) -> Option<int>
    decreases s.len(),
{
    if s.len() == 0 {
        None
    } else if s[0] == '.' {
        Some(0)
    } else {
        match dot_pos(s.drop_first()) {
            None => None,
            Some(p) => Some(p + 1),
        }
    }
}

/// What `dot_pos` finds is a dot, and the first one.
pub proof fn lemma_dot_pos_props(s: Seq<char>)
    ensures
        dot_pos(s) matches Some(p) ==> 0 <= p < s.len() && s[p] == '.' && (forall|j: int|
            0 <= j < p ==> s[j] != '.'),
        dot_pos(s) is None ==> forall|j: int| 0 <= j < s.len() ==> s[j] != '.',
    decreases s.len(),
{
    if s.len() > 0 && s[0] != '.' {
        let t = s.drop_first();
        lemma_dot_pos_props(t);
        match dot_pos(t) {
            None => {
                assert forall|j: int| 0 <= j < s.len() implies s[j] != '.' by {
                    if j > 0 {
                        assert(s[j] == t[j - 1]);
                    }
                }
            },
            Some(q) => {
                assert(s[q + 1] == t[q]);
                assert forall|j: int| 0 <= j < q + 1 implies s[j] != '.' by {
                    if j > 0 {
                        assert(s[j] == t[j - 1]);
                    }
                }
            },
        }
    }
}

/// A dot at `p` with none before it is exactly what `dot_pos` reports.
pub proof fn lemma_dot_pos_found(s: Seq<char>, p: int)
    requires
        0 <= p < s.len(),
        s[p] == '.',
        forall|j: int| 0 <= j < p ==> s[j] != '.',
    ensures
        dot_pos(s) == Some(p),
    decreases s.len(),
{
    if p > 0 {
        let t = s.drop_first();
        assert(t[p - 1] == s[p]);
        assert forall|j: int| 0 <= j < p - 1 implies t[j] != '.' by {
            assert(t[j] == s[j + 1]);
        }
        lemma_dot_pos_found(t, p - 1);
    }
}

/// A sequence without any dot is one where `dot_pos` finds none.
pub proof fn lemma_dot_pos_none(s: Seq<char>)
    requires
        forall|j: int| 0 <= j < s.len() ==> s[j] != '.',
    ensures
        dot_pos(s) is None,
    decreases s.len(),
{
    if s.len() > 0 {
        let t = s.drop_first();
        assert forall|j: int| 0 <= j < t.len() implies t[j] != '.' by {
            assert(t[j] == s[j + 1]);
        }
        lemma_dot_pos_none(t);
    }
}

/// The token a key issues for a given expiration instant. A token is a
/// function of the key and that instant alone: two logins whose tokens
/// expire at the same second mint the identical string, and only the
/// store's lookup order then decides which row such a string resolves to.
pub open spec fn token_of(key: Seq<char>, expiry: nat) -> Seq<char> {
    dec_digits(expiry) + seq!['.'] + sha256_hex_of(dec_digits(expiry) + seq!['.'] + key)
}

/// Whether a presented token passes the stateless check at time `now`:
/// it splits at its first dot into a decimal expiry that fits a `u64` and
/// has not passed, and the signature of that expiry under `key`.
pub open spec fn token_valid(key: Seq<char>, token: Seq<char>, now: nat) -> bool {
    match dot_pos(token) {
        None => false,
        Some(p) => {
            let pre = token.take(p);
            let sig = token.skip(p + 1);
            pre.len() > 0 && all_digits(pre) && str_to_nat(pre) <= u64::MAX as nat && now
                <= str_to_nat(pre) && sig == sha256_hex_of(pre + seq!['.'] + key)
        },
    }
}

/// Issuer and verifier of session tokens: a server-held secret key and a
/// fixed token lifetime in seconds.
pub struct Tokenizer {
    pub key: String,
    pub lifetime_secs: u64,
}

/// Relies on std's `SystemTime`: the wall clock, in whole seconds since
/// the Unix epoch. Nothing is promised of the value.
#[verifier::external_body]
fn now_secs() -> u64 {
    match SystemTime::now().duration_since(UNIX_EPOCH) {
        Ok(d) => d.as_secs(),
        Err(_) => 0,
    }
}

/// The position of the first `.` in a string, if any.
fn find_dot(s: &str) -> (r: Option<usize>)
    ensures
        r matches Some(p) ==> dot_pos(s@) == Some(p as int),
        r is None ==> dot_pos(s@) is None,
{
    let n = s.unicode_len();
    let mut i: usize = 0;
    while i < n
        invariant
            0 <= i <= n,
            n as nat == s@.len(),
            forall|j: int| 0 <= j < i ==> s@[j] != '.',
        decreases n - i,
    {
        if s.get_char(i) == '.' {
            proof {
                lemma_dot_pos_found(s@, i as int);
            }
            return Some(i);
        }
        i = i + 1;
    }
    proof {
        lemma_dot_pos_none(s@);
    }
    None
}

impl Tokenizer {
    /// A tokenizer over the given lifetime and secret key. An absent key
    /// falls back to a process-local ephemeral one, so restarting the
    /// process invalidates all outstanding tokens.
    pub fn new(lifetime_secs: u64, secret: Option<&str>) -> (t: Tokenizer)
        ensures
            t.lifetime_secs == lifetime_secs,
            secret matches Some(s) ==> t.key@ == s@,
    {
        let key = match secret {
            Some(s) => s.to_owned(),
            None => hash(u64_to_dec(now_secs()).as_str()),
        };
        Tokenizer { key, lifetime_secs }
    }

    /// Issue the token that expires at `now + lifetime`. No character of
    /// an issued token is a space, so surrounding a token with header
    /// whitespace never changes what extraction recovers.
    pub fn generate_at(&self, now: u64) -> (r: String)
        requires
            now + self.lifetime_secs <= u64::MAX,
        ensures
            r@ == token_of(self.key@, (now + self.lifetime_secs) as nat),
            forall|i: int| 0 <= i < r@.len() ==> r@[i] != ' ',
    {
        let expiry = now + self.lifetime_secs;
        let mut payload = u64_to_dec(expiry);
        proof {
            reveal_strlit(".");
            assert("."@ =~= seq!['.']);
        }
        payload.append(".");
        payload.append(self.key.as_str());
        let sig = hash(payload.as_str());
        let mut token = u64_to_dec(expiry);
        token.append(".");
        token.append(sig.as_str());
        proof {
            let pre = dec_digits(expiry as nat);
            lemma_dec_digits_props(expiry as nat);
            assert(token@ == pre + seq!['.'] + sig@);
            assert forall|i: int| 0 <= i < token@.len() implies token@[i] != ' ' by {
                if i < pre.len() {
                    assert(token@[i] == pre[i]);
                    assert(digit_val(pre[i]) < 10);
                } else if i == pre.len() {
                    assert(token@[i] == '.');
                } else {
                    assert(token@[i] == sig@[i - pre.len() - 1]);
                    assert(is_hex_char(sig@[i - pre.len() - 1]));
                }
            }
        }
        token
    }

    /// The stateless check: succeeds exactly when the token is well
    /// formed, correctly signed under this key, and not yet expired at
    /// time `now`.
    pub fn verify_at(&self, token: &str, now: u64) -> (r: Result<(), Error>)
        ensures
            r is Ok <==> token_valid(self.key@, token@, now as nat),
            r matches Err(e) ==> e == Error::InvalidToken,
    {
        let n = token.unicode_len();
        match find_dot(token) {
            None => Err(Error::InvalidToken),
            Some(p) => {
                proof {
                    lemma_dot_pos_props(token@);
                }
                let pre = token.substring_char(0, p);
                let sig = token.substring_char(p + 1, n);
                proof {
                    assert(pre@ =~= token@.take(p as int));
                    assert(sig@ =~= token@.skip(p as int + 1));
                }
                match parse_u64(pre) {
                    None => Err(Error::InvalidToken),
                    Some(v) => {
                        if now <= v {
                            let mut payload = pre.to_owned();
                            proof {
                                reveal_strlit(".");
                                assert("."@ =~= seq!['.']);
                            }
                            payload.append(".");
                            payload.append(self.key.as_str());
                            let expected = hash(payload.as_str());
                            let presented = sig.to_owned();
                            if expected == presented {
                                Ok(())
                            } else {
                                Err(Error::InvalidToken)
                            }
                        } else {
                            Err(Error::InvalidToken)
                        }
                    },
                }
            },
        }
    }

    /// Issue a token expiring one lifetime from the current wall-clock
    /// time. The clock value decides the outcome: where the expiration
    /// instant fits a `u64` the issued token is owed, and only where it
    /// does not may issuance fail — so with a lifetime of zero issuance
    /// never fails.
    pub fn generate(&self) -> (r: Result<String, Error>)
        ensures
            exists|n: u64|
                #![trigger token_of(self.key@, (n + self.lifetime_secs) as nat)]
                ((n + self.lifetime_secs <= u64::MAX ==> (r matches Ok(t) && t@ == token_of(
                    self.key@,
                    (n + self.lifetime_secs) as nat,
                ))) && (n + self.lifetime_secs > u64::MAX ==> r is Err)),
            self.lifetime_secs == 0 ==> r is Ok,
            r matches Ok(t) ==> exists|n: u64|
                n + self.lifetime_secs <= u64::MAX && t@ == #[trigger] token_of(
                    self.key@,
                    (n + self.lifetime_secs) as nat,
                ),
            r matches Err(e) ==> e == Error::TokenGeneration,
    {
        let now = now_secs();
        if now <= u64::MAX - self.lifetime_secs {
            let token = self.generate_at(now);
            proof {
                let n0 = now;
                assert(n0 + self.lifetime_secs <= u64::MAX && token@ == token_of(
                    self.key@,
                    (n0 + self.lifetime_secs) as nat,
                ));
            }
            Ok(token)
        } else {
            proof {
                assert(now + self.lifetime_secs > u64::MAX && token_of(
                    self.key@,
                    (now + self.lifetime_secs) as nat,
                ).len() >= 0);
            }
            Err(Error::TokenGeneration)
        }
    }

    /// The stateless check against the current wall-clock time: the
    /// outcome is exactly the token's validity at the one instant the
    /// clock reported, so a token valid at every time is owed success and
    /// one valid at none is owed failure.
    pub fn verify(&self, token: &str) -> (r: Result<(), Error>)
        ensures
            exists|m: u64|
                #![trigger token_valid(self.key@, token@, m as nat)]
                (r is Ok <==> token_valid(self.key@, token@, m as nat)),
            r is Ok ==> exists|m: u64| token_valid(self.key@, token@, m as nat),
            (forall|m: u64| !token_valid(self.key@, token@, m as nat)) ==> r is Err,
            r matches Err(e) ==> e == Error::InvalidToken,
    {
        let now = now_secs();
        let r = self.verify_at(token, now);
        proof {
            assert(r is Ok <==> token_valid(self.key@, token@, now as nat));
        }
        r
    }
}

/// A token issued for expiration instant `expiry` passes the stateless
/// check at time `now` exactly while `now` has not passed `expiry`.
pub proof fn lemma_fresh_token_valid(key: Seq<char>, expiry: u64, now: u64)
    ensures
        token_valid(key, token_of(key, expiry as nat), now as nat) <==> now <= expiry,
{
    let pre = dec_digits(expiry as nat);
    let sig = sha256_hex_of(pre + seq!['.'] + key);
    let token = token_of(key, expiry as nat);
    lemma_dec_digits_props(expiry as nat);
    assert(forall|i: int| 0 <= i < pre.len() ==> pre[i] != '.') by {
        assert(forall|i: int|
            0 <= i < pre.len() ==> crate::digits::digit_val(#[trigger] pre[i]) < 10);
    }
    assert(token =~= pre + seq!['.'] + sig);
    assert(token[pre.len() as int] == '.');
    assert(forall|j: int| 0 <= j < pre.len() ==> token[j] == pre[j]);
    lemma_dot_pos_found(token, pre.len() as int);
    assert(token.take(pre.len() as int) =~= pre);
    assert(token.skip(pre.len() as int + 1) =~= sig);
}

/// Tokens issued by one key for distinct expiration instants are distinct
/// strings: the decimal expiry before the first dot already differs.
pub proof fn lemma_distinct_expiry_distinct_token(key: Seq<char>, e1: nat, e2: nat)
    requires
        e1 != e2,
    ensures
        token_of(key, e1) != token_of(key, e2),
{
    let p1 = dec_digits(e1);
    let p2 = dec_digits(e2);
    lemma_dec_digits_props(e1);
    lemma_dec_digits_props(e2);
    if token_of(key, e1) == token_of(key, e2) {
        let t1 = token_of(key, e1);
        let t2 = token_of(key, e2);
        assert(forall|i: int| 0 <= i < p1.len() ==> p1[i] != '.') by {
            assert(forall|i: int|
                0 <= i < p1.len() ==> crate::digits::digit_val(#[trigger] p1[i]) < 10);
        }
        assert(forall|i: int| 0 <= i < p2.len() ==> p2[i] != '.') by {
            assert(forall|i: int|
                0 <= i < p2.len() ==> crate::digits::digit_val(#[trigger] p2[i]) < 10);
        }
        assert(t1 =~= p1 + seq!['.'] + sha256_hex_of(p1 + seq!['.'] + key));
        assert(t2 =~= p2 + seq!['.'] + sha256_hex_of(p2 + seq!['.'] + key));
        assert(t1[p1.len() as int] == '.');
        assert(forall|j: int| 0 <= j < p1.len() ==> t1[j] == p1[j]);
        lemma_dot_pos_found(t1, p1.len() as int);
        assert(t2[p2.len() as int] == '.');
        assert(forall|j: int| 0 <= j < p2.len() ==> t2[j] == p2[j]);
        lemma_dot_pos_found(t2, p2.len() as int);
        assert(p1.len() == p2.len());
        assert(t1.take(p1.len() as int) =~= p1);
        assert(t2.take(p2.len() as int) =~= p2);
        assert(p1 == p2);
        assert(str_to_nat(p1) == e1 && str_to_nat(p2) == e2);
    }
}

} // verus!
