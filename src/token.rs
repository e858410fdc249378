//! Signed session tokens (JWT, HMAC-SHA256) that carry a user's claims.

use crate::query::{entries_view, EntryModel};
use crate::text::decimal;
use crate::text::decimal_string;
use hmac::{Hmac, Mac};
use jwt::{SignWithKey, VerifyWithKey};
use sha2::Sha256;
use std::collections::BTreeMap;
use vstd::prelude::*;

verus! {

/// Why a token could not be issued or read.
#[derive(Debug, Clone, Copy, PartialEq, Eq, Structural)]
pub enum TokenError {
    /// The signing key could not be made from the secret.
    Hmac,
    /// The claims could not be signed.
    Sign,
    /// The token is malformed, or its signature does not match.
    Verify,
}

/// The token jwt makes of `claims` (keys unique) signed with an HMAC-SHA256 key
/// made from `secret`, if signing succeeds.
pub uninterp spec fn signed_of(claims: Seq<EntryModel>, secret: Seq<u8>) -> Option<Seq<char>>;

/// The claims of `token`, in key order, if its HMAC-SHA256 signature matches
/// the key made from `secret` and its claims are all strings.
pub uninterp spec fn claims_of(token: Seq<char>, secret: Seq<u8>) -> Option<Seq<EntryModel>>;

/// Relies on hmac's `Mac::new_from_slice` for `Hmac<Sha256>` (which accepts a
/// key of any length) and jwt's `SignWithKey::sign_with_key` on a string map:
/// the token depends on the claims and the secret alone.
#[verifier::external_body]
fn sign_claims(claims: &Vec<(String, String)>, secret: &[u8]) -> (r: Option<String>)
    ensures
        r matches Some(t) ==> signed_of(entries_view(claims@), secret@) == Some(t@),
        r is None ==> signed_of(entries_view(claims@), secret@) is None,
{
    let key = Hmac::<Sha256>::new_from_slice(secret).ok()?;
    let map: BTreeMap<&str, &str> = claims.iter().map(|(k, v)| (k.as_str(), v.as_str())).collect();
    map.sign_with_key(&key).ok()
}

/// Relies on hmac's `Mac::new_from_slice` for `Hmac<Sha256>` and jwt's
/// `VerifyWithKey::verify_with_key` into a string map, read out in key order:
/// the claims depend on the token and the secret alone.
#[verifier::external_body]
fn verified_claims(token: &str, secret: &[u8]) -> (r: Option<Vec<(String, String)>>)
    ensures
        r matches Some(c) ==> claims_of(token@, secret@) == Some(entries_view(c@)),
        r is None ==> claims_of(token@, secret@) is None,
{
    let key = Hmac::<Sha256>::new_from_slice(secret).ok()?;
    let claims: BTreeMap<String, String> = token.verify_with_key(&key).ok()?;
    Some(claims.into_iter().collect())
}

/// Decimal notation of a signed integer.
pub open spec fn int_decimal(v: int) -> Seq<char> {
    if v < 0 {
        seq!['-'] + decimal((-v) as nat)
    } else {
        decimal(v as nat)
    }
}

fn signed_decimal_string(v: i64) -> (r: String)
    ensures
        r@ == int_decimal(v as int),
{
    if v < 0 {
        proof {
            reveal_strlit("-");
            assert("-"@ =~= seq!['-']);
        }
        let magnitude: u64 = if v == i64::MIN {
            9223372036854775808u64
        } else {
            (-v) as u64
        };
        let digits = decimal_string(magnitude);
        let mut r = String::from_str("-");
        r.append(digits.as_str());
        r
    } else {
        decimal_string(v as u64)
    }
}

/// The claims a user's token carries, in key order.
pub open spec fn user_claims(id: int, email: Seq<char>) -> Seq<EntryModel> {
    seq![("email"@, email), ("id"@, int_decimal(id)), ("role"@, "user"@)]
}

/// Issues a token for the user `id` with address `email`, signed with `secret`.
pub fn gen_token(id: i64, email: &str, secret: &[u8]) -> (r: Result<String, TokenError>)
    ensures
        match signed_of(user_claims(id as int, email@), secret@) {
            Some(t) => r matches Ok(x) && x@ == t,
            None => r == Err::<String, TokenError>(TokenError::Sign),
        },
{
    let claims = vec![
        (String::from_str("email"), String::from_str(email)),
        (String::from_str("id"), signed_decimal_string(id)),
        (String::from_str("role"), String::from_str("user")),
    ];
    assert(entries_view(claims@) =~= user_claims(id as int, email@));
    match sign_claims(&claims, secret) {
        Some(t) => Ok(t),
        None => Err(TokenError::Sign),
    }
}

/// Reads the claims of a token signed with `secret`, in key order.
pub fn verify_token(token: &str, secret: &[u8]) -> (r: Result<Vec<(String, String)>, TokenError>)
    ensures
        match claims_of(token@, secret@) {
            Some(c) => r matches Ok(v) && entries_view(v@) == c,
            None => r == Err::<Vec<(String, String)>, TokenError>(TokenError::Verify),
        },
{
    match verified_claims(token, secret) {
        Some(claims) => Ok(claims),
        None => Err(TokenError::Verify),
    }
}

} // verus!
