//! Session claims.

use vstd::prelude::*;

verus! {

/// Seconds a session lasts: seven days.
pub const SESSION_SECONDS: i64 = 604_800;

/// The claims of a session token: the user, and when the session was issued
/// and expires, in seconds since the epoch.
#[derive(Clone, Copy, Debug, PartialEq, Eq, Structural)]
pub struct Claims {
    pub sub: i64,
    pub exp: i64,
    pub iat: i64,
}

impl Claims {
    /// The claims of a session issued to `user_id` at `now`: it expires seven
    /// days later. `None` when that moment cannot be represented.
    pub fn issue(user_id: i64, now: i64) -> (claims: Option<Claims>)
        ensures
            claims.is_some() == (now + SESSION_SECONDS <= i64::MAX),
            claims matches Some(c) ==> c.sub == user_id && c.iat == now && c.exp == now
                + SESSION_SECONDS,
    {
        if now > i64::MAX - SESSION_SECONDS {
            None
        } else {
            Some(Claims { sub: user_id, exp: now + SESSION_SECONDS, iat: now })
        }
    }

    /// Whether the session has expired at `now`.
    pub fn is_expired(&self, now: i64) -> (expired: bool)
        ensures
            expired == (self.exp < now),
    {
        self.exp < now
    }
}

} // verus!
