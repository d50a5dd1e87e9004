use vstd::prelude::*;

use crate::game_match::clock::{new_uuid, now_millis};

verus! {

/// How long a password reset token stays valid: thirty minutes.
pub const RESET_TOKEN_LIFETIME_MS: u64 = 30 * 60 * 1000;

/// A password reset token of a user. Identifiers are 128-bit values, times
/// milliseconds since the Unix epoch.
#[derive(Clone, Copy, Debug, PartialEq, Eq, Structural)]
pub struct ResetToken {
    pub user_id: u128,
    pub token: u128,
    pub created_at: u64,
    pub expires_at: u64,
}

/// The end of a token's life that starts at `created`, capped at the
/// largest time.
pub open spec fn expiry(created: u64) -> u64 {
    if created + RESET_TOKEN_LIFETIME_MS > u64::MAX {
        u64::MAX
    } else {
        (created + RESET_TOKEN_LIFETIME_MS) as u64
    }
}

/// Whether the token is valid at `now`.
pub open spec fn valid_at(t: ResetToken, now: u64) -> bool {
    now < t.expires_at
}

/// A token issued at `created` is valid exactly until thirty minutes
/// have passed (or to the end of time, where that is later than the last
/// instant), and once expired it stays expired.
pub proof fn lemma_token_expires(t: ResetToken, now1: u64, now2: u64)
    requires
        t.expires_at == expiry(t.created_at),
        now1 <= now2,
    ensures
        t.created_at + RESET_TOKEN_LIFETIME_MS <= u64::MAX ==> (valid_at(t, now1) <==> now1 - t.created_at
            < RESET_TOKEN_LIFETIME_MS),
        valid_at(t, now2) ==> valid_at(t, now1),
        valid_at(t, t.created_at) == (t.created_at < u64::MAX),
{
}

impl ResetToken {
    /// A fresh random token for the user, created now.
    pub fn new(user_id: u128) -> (r: Self)
        ensures
            r.user_id == user_id,
            r.expires_at == expiry(r.created_at),
    {
        let token = new_uuid();
        let created = now_millis();
        Self::issued_at(user_id, token, created)
    }

    /// The token `token` of the user, created at `created`.
    pub fn issued_at(user_id: u128, token: u128, created: u64) -> (r: Self)
        ensures
            r == (ResetToken { user_id, token, created_at: created, expires_at: expiry(created) }),
    {
        ResetToken {
            user_id,
            token,
            created_at: created,
            expires_at: created.saturating_add(RESET_TOKEN_LIFETIME_MS),
        }
    }

    /// Whether the token is still valid at `now`.
    pub fn is_valid_at(&self, now: u64) -> (r: bool)
        ensures
            r == (now < self.expires_at),
    {
        now < self.expires_at
    }

    /// Whether the token is still valid now.
    pub fn is_valid(&self) -> (r: bool)
        ensures
            exists|now: u64| r == #[trigger] valid_at(*self, now),
    {
        let now = now_millis();
        let r = self.is_valid_at(now);
        assert(r == valid_at(*self, now));
        r
    }
}

} // verus!
