//! A dual-token session subsystem: short-lived access tokens and
//! long-lived refresh tokens, signed with HMAC-SHA512 and carried as
//! cookies, with silent rotation when the access token expires and
//! termination when the refresh token is invalid or expired.
//!
//! The token wire format, the cookie jar with its delta, and the session
//! state machine are verified; the keyed hash, the random token id, the
//! clock and the character classes are the only outside calls, each behind
//! a trusted declaration that names what it relies on.
use vstd::prelude::*;

pub mod b64;
pub mod claims;
pub mod cookies;
pub mod errors;
pub mod session;
pub mod token;
pub mod user;
pub mod util;
pub mod validate;

verus! {

/// Seconds an access token stays live after it is minted.
pub const ACCESS_TOKEN_DURATION: u64 = 43200;

/// Seconds a refresh token stays live after it is minted.
pub const REFRESH_TOKEN_DURATION: u64 = 7776000;

/// A token whose expiry equals the current second is already expired;
/// it is live only strictly before its expiry.
pub open spec fn token_live(exp: u64, now: u64) -> bool {
    now < exp
}

/// Expiry check used on decoded claims: true exactly when the token is no
/// longer live at `now`.
pub fn token_expired(exp: u64, now: u64) -> (r: bool)
    ensures
        r == !token_live(exp, now),
{
    exp <= now
}

} // verus!
