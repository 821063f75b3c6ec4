//! Authentication and session management: a deterministic credential hasher,
//! an issuer/verifier of time-limited signed session tokens, a credential
//! store binding one live token to each user, and the per-request guard that
//! combines the stateless token check with the stateful store lookup.

use sha2::Digest;
use sha2::Sha256;
use vstd::prelude::*;

pub mod backend;
pub mod digits;
pub mod errors;
pub mod guard;
pub mod routes;
pub mod tokenizer;
pub mod types;

pub use backend::Backend;
pub use errors::Error;
pub use tokenizer::Tokenizer;

verus! {

/// The SHA-256 digest of a character sequence, rendered as lowercase hex.
/// The digest is a function of the input characters alone, so two equal
/// inputs always name the same digest.
pub uninterp spec fn sha256_hex_of(s: Seq<char>) -> Seq<char>;

/// A lowercase hexadecimal digit.
pub open spec fn is_hex_char(c: char) -> bool {
    digits::digit_val(c) < 10 || c == 'a' || c == 'b' || c == 'c' || c == 'd' || c == 'e' || c
        == 'f'
}

/// Relies on sha2's `Sha256::digest`: hashes the input bytes and formats the
/// 32-byte digest as hex, two lowercase digits from `0123456789abcdef` for
/// each of the 32 bytes.
#[verifier::external_body]
fn sha256_hex(data: &str) -> (r: String)
    ensures
        r@ == sha256_hex_of(data@),
        r@.len() == 64,
        forall|i: int| 0 <= i < r@.len() ==> is_hex_char(#[trigger] r@[i]),
{
    format!("{:x}", Sha256::digest(data.as_bytes()))
}

/// One-way digest of a plaintext secret into its stored comparable form.
/// Every plaintext entering the system (provisioning, login, password
/// change) goes through this, so the store never observes plaintext.
pub fn hash(data: &str) -> (r: String)
    ensures
        r@ == sha256_hex_of(data@),
        r@.len() == 64,
        forall|i: int| 0 <= i < r@.len() ==> is_hex_char(#[trigger] r@[i]),
{
    sha256_hex(data)
}

/// Character-for-character equality of two string slices.
pub(crate) fn str_eq(a: &str, b: &str) -> (r: bool)
    ensures
        r == (a@ == b@),
{
    let na = a.unicode_len();
    let nb = b.unicode_len();
    if na != nb {
        return false;
    }
    let mut i: usize = 0;
    while i < na
        invariant
            0 <= i <= na,
            na as nat == a@.len(),
            nb as nat == b@.len(),
            na == nb,
            forall|j: int| 0 <= j < i ==> a@[j] == b@[j],
        decreases na - i,
    {
        if a.get_char(i) != b.get_char(i) {
            return false;
        }
        i = i + 1;
    }
    proof {
        assert(a@ =~= b@);
    }
    true
}

/// Hashing is deterministic: equal plaintexts always digest to equal values,
/// across any number of calls.
pub proof fn lemma_hash_deterministic(a: Seq<char>, b: Seq<char>)
    requires
        a == b,
    ensures
        sha256_hex_of(a) == sha256_hex_of(b),
{
}

} // verus!
