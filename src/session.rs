//! Session identifiers and the cache keys derived from them.

use crate::text::{decimal, decimal_string};
use rand::Rng;
use vstd::prelude::*;

verus! {

/// The largest session number, plus one.
pub const SESSION_RANGE: u32 = 100000;

/// Relies on rand's `thread_rng` and `Rng::gen_range`: a value drawn from
/// `0..bound`, which must not be empty.
#[verifier::external_body]
fn random_below(bound: u32) -> (r: u32)
    requires
        bound > 0,
    ensures
        r < bound,
{
    rand::thread_rng().gen_range(0..bound)
}

/// A fresh session identifier: a random number below `SESSION_RANGE`, in decimal.
pub fn gen_session() -> (r: String)
    ensures
        exists|n: nat| n < SESSION_RANGE && r@ == decimal(n),
{
    let n = random_below(SESSION_RANGE);
    decimal_string(n as u64)
}

/// The cache key of the cart that belongs to a session.
pub fn cart_key(session_id: &str) -> (r: String)
    ensures
        r@ == "cart:"@ + session_id@,
{
    let mut key = String::from_str("cart:");
    key.append(session_id);
    key
}

} // verus!
