//! Revocation of capability tokens: a store of revoked token identifiers,
//! each with the time its token expires; a token counts as revoked until
//! then. Times are milliseconds since the Unix epoch.

use vstd::prelude::*;
use std::collections::HashMap;
use crate::support::now_millis;

verus! {

broadcast use vstd::std_specs::hash::group_hash_axioms;

/// Where revoked tokens are kept. Applications bring their own stores.
pub trait RevocationStore {
    /// Records that the token `jti`, which expires at `expires_at`, is
    /// revoked.
    fn revoke(&mut self, jti: u128, expires_at: i64) -> Result<(), String>;

    /// Whether the token `jti` is revoked now.
    fn is_revoked(&self, jti: u128) -> Result<bool, String>;
}

/// A revocation list kept in memory, for tests and development.
#[derive(Debug)]
pub struct MemoryStore {
    map: HashMap<u128, i64>,
}

/// Whether `jti` is revoked at `now` in the list `m`: it was revoked and
/// its token has not expired.
pub open spec fn revoked_at(m: Map<u128, i64>, jti: u128, now: i64) -> bool {
    m.contains_key(jti) && m[jti] > now
}

impl MemoryStore {
    /// The revoked tokens with their expiry.
    pub closed spec fn revoked(&self) -> Map<u128, i64> {
        self.map@
    }

    /// An empty list.
    pub fn new() -> (s: Self)
        ensures
            s.revoked() == Map::<u128, i64>::empty(),
    {
        MemoryStore { map: HashMap::new() }
    }

    /// Whether `jti` is revoked at `now`.
    pub fn is_revoked_at(&self, jti: u128, now: i64) -> (r: bool)
        ensures
            r == revoked_at(self.revoked(), jti, now),
    {
        match self.map.get(&jti) {
            Some(exp) => *exp > now,
            None => false,
        }
    }
}

impl Default for MemoryStore {
    /// An empty list.
    fn default() -> (s: Self)
        ensures
            s.revoked() == Map::<u128, i64>::empty(),
    {
        MemoryStore::new()
    }
}

impl RevocationStore for MemoryStore {
    /// Records the token, in place of an earlier expiry.
    fn revoke(&mut self, jti: u128, expires_at: i64) -> (r: Result<(), String>)
        ensures
            r is Ok,
            final(self).revoked() == old(self).revoked().insert(jti, expires_at),
    {
        self.map.insert(jti, expires_at);
        Ok(())
    }

    /// Whether the token is revoked and has not expired yet.
    fn is_revoked(&self, jti: u128) -> (r: Result<bool, String>)
        ensures
            r is Ok,
            !self.revoked().contains_key(jti) ==> r == Ok::<bool, String>(false),
    {
        let now = now_millis();
        Ok(self.is_revoked_at(jti, now))
    }
}

/// A token just revoked counts as revoked exactly while it has not
/// expired, and revoking it changes nothing for other tokens.
pub proof fn law_revoked_until_expiry(
    before: Map<u128, i64>,
    jti: u128,
    expires_at: i64,
    other: u128,
    now: i64,
)
    requires
        other != jti,
    ensures
        revoked_at(before.insert(jti, expires_at), jti, now) == (expires_at > now),
        revoked_at(before.insert(jti, expires_at), other, now) == revoked_at(before, other, now),
{
}

} // verus!
