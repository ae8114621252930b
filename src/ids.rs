//! Identifiers taken from requests: account ids and public keys are checked
//! before any key is built from them.

use vstd::prelude::*;
use crate::opt_view;

verus! {

/// A separator of account id parts.
pub open spec fn is_separator(c: char) -> bool {
    c == '-' || c == '_' || c == '.'
}

/// A character that an account id may hold.
pub open spec fn is_account_char(c: char) -> bool {
    ('a' <= c && c <= 'z') || ('0' <= c && c <= '9') || is_separator(c)
}

/// A valid account id of the chain: 2 to 64 characters out of `a-z`, `0-9`,
/// `-`, `_`, `.`, with no separator first, last, or next to another.
pub open spec fn is_valid_account_id(s: Seq<char>) -> bool {
    &&& 2 <= s.len() <= 64
    &&& forall|i: int| 0 <= i < s.len() ==> is_account_char(#[trigger] s[i])
    &&& !is_separator(s[0])
    &&& !is_separator(s.last())
    &&& forall|i: int| 0 <= i < s.len() - 1 ==> !(is_separator(#[trigger] s[i]) && is_separator(s[i + 1]))
}

/// The canonical text of the public key that `s` spells, if it spells one.
pub uninterp spec fn public_key_text(s: Seq<char>) -> Option<Seq<char>>;

/// Relies on `near_account_id::AccountId::validate`: it rejects a byte length
/// outside 2 to 64, any character but `a-z`, `0-9`, `-`, `_`, `.`, and a
/// separator first, last or after another. Every accepted character is
/// ASCII, so byte and character lengths agree on the ids it accepts.
#[verifier::external_body]
fn validate_account_id(s: &str) -> (r: bool)
    ensures
        r == is_valid_account_id(s@),
{
    near_account_id::AccountId::validate(s).is_ok()
}

/// Relies on `near_crypto::PublicKey::from_str`, which parses `<type>:<base58>`
/// text; the parsed key is written back through its `Display` impl.
#[verifier::external_body]
fn canonical_public_key(s: &str) -> (r: Option<String>)
    ensures
        opt_view(r) == public_key_text(s@),
{
    match <near_crypto::PublicKey as std::str::FromStr>::from_str(s) {
        Ok(key) => Some(key.to_string()),
        Err(_) => None,
    }
}

/// The account id of a request, if it is a valid one.
pub fn account_argument(raw: &str) -> (r: Option<String>)
    ensures
        r is Some <==> is_valid_account_id(raw@),
        r matches Some(id) ==> id@ == raw@,
{
    if validate_account_id(raw) {
        Some(String::from_str(raw))
    } else {
        None
    }
}

/// The public key of a request in canonical text, if it parses as one.
pub fn public_key_argument(raw: &str) -> (r: Option<String>)
    ensures
        opt_view(r) == public_key_text(raw@),
{
    canonical_public_key(raw)
}

} // verus!
