//! The bookkeeping of token validation with rotating keys: the counts of
//! validations, when the cached keys are too old, which cached key may
//! still be used, and when a failure calls for an alert. The validation of
//! a token's signature itself is made outside. Times are milliseconds;
//! the ages of the settings are seconds.

use vstd::prelude::*;
use crate::security::capability::{Claims, Error, TokenValidator};
use crate::security::jwt::{ClaimsView, claims_view, hs256_validation, validate_hs256};
use crate::security::key_rotation::{KeyStore, KeyVersion, ValidationConfig, hex_decoded};
use crate::support::join_text;

verus! {

/// Counts of token validations.
#[derive(Debug, Clone)]
pub struct ValidationMetrics {
    pub total_validations: u64,
    pub successful_validations: u64,
    pub failed_validations: u64,
    pub cache_hits: u64,
    pub cache_misses: u64,
    pub key_rotations_detected: u64,
    pub suspicious_activities: u64,
    /// Failures by key identifier.
    pub validation_failures_by_key: Vec<(u128, u64)>,
    /// When the last validation happened.
    pub last_validation_time: Option<i64>,
}

impl Default for ValidationMetrics {
    /// All counts at 0, no validation yet.
    fn default() -> (m: Self)
        ensures
            m.total_validations == 0,
            m.successful_validations == 0,
            m.failed_validations == 0,
            m.cache_hits == 0,
            m.cache_misses == 0,
            m.key_rotations_detected == 0,
            m.suspicious_activities == 0,
            m.validation_failures_by_key@.len() == 0,
            m.last_validation_time is None,
    {
        ValidationMetrics {
            total_validations: 0,
            successful_validations: 0,
            failed_validations: 0,
            cache_hits: 0,
            cache_misses: 0,
            key_rotations_detected: 0,
            suspicious_activities: 0,
            validation_failures_by_key: Vec::new(),
            last_validation_time: None,
        }
    }
}

impl ValidationMetrics {
    /// Counts a validation at `now` that succeeded or failed.
    pub fn record_validation(&mut self, succeeded: bool, now: i64)
        requires
            old(self).total_validations < u64::MAX,
            succeeded ==> old(self).successful_validations < u64::MAX,
            !succeeded ==> old(self).failed_validations < u64::MAX,
        ensures
            final(self).total_validations == old(self).total_validations + 1,
            final(self).successful_validations == old(self).successful_validations + if succeeded {
                1int
            } else {
                0int
            },
            final(self).failed_validations == old(self).failed_validations + if succeeded {
                0int
            } else {
                1int
            },
            final(self).last_validation_time == Some(now),
            final(self).cache_hits == old(self).cache_hits,
            final(self).cache_misses == old(self).cache_misses,
            final(self).suspicious_activities == old(self).suspicious_activities,
    {
        self.total_validations = self.total_validations + 1;
        self.last_validation_time = Some(now);
        if succeeded {
            self.successful_validations = self.successful_validations + 1;
        } else {
            self.failed_validations = self.failed_validations + 1;
        }
    }

    /// Counts a key found among the cached keys.
    pub fn record_cache_hit(&mut self)
        requires
            old(self).cache_hits < u64::MAX,
        ensures
            final(self).cache_hits == old(self).cache_hits + 1,
            final(self).cache_misses == old(self).cache_misses,
            final(self).total_validations == old(self).total_validations,
    {
        self.cache_hits = self.cache_hits + 1;
    }

    /// Counts a key not found among the cached keys.
    pub fn record_cache_miss(&mut self)
        requires
            old(self).cache_misses < u64::MAX,
        ensures
            final(self).cache_misses == old(self).cache_misses + 1,
            final(self).cache_hits == old(self).cache_hits,
            final(self).total_validations == old(self).total_validations,
    {
        self.cache_misses = self.cache_misses + 1;
    }

    /// Counts a failed validation examined for suspicious activity, and
    /// tells whether the failures call for an alert: their count is a
    /// multiple of the failures tolerated.
    pub fn record_suspicious(&mut self, config: &ValidationConfig) -> (alert: bool)
        requires
            old(self).suspicious_activities < u64::MAX,
            config.max_validation_failures > 0,
        ensures
            final(self).suspicious_activities == old(self).suspicious_activities + 1,
            final(self).failed_validations == old(self).failed_validations,
            alert == (old(self).failed_validations % (config.max_validation_failures as u64) == 0),
    {
        self.suspicious_activities = self.suspicious_activities + 1;
        self.failed_validations % (config.max_validation_failures as u64) == 0
    }
}

/// The whole seconds between two times in milliseconds, rounded toward
/// zero.
pub open spec fn seconds_between(from: i64, to: i64) -> int {
    let d = to - from;
    if d >= 0 {
        d / 1000
    } else {
        -((-d) / 1000)
    }
}

/// The whole seconds between two times in milliseconds, rounded toward
/// zero.
pub fn whole_seconds_between(from: i64, to: i64) -> (r: i128)
    ensures
        r == seconds_between(from, to),
{
    let d: i128 = (to as i128) - (from as i128);
    if d >= 0 {
        d / 1000
    } else {
        -((-d) / 1000)
    }
}

/// Whether the cached keys are to be refreshed at `now`: caching is on,
/// and the cache was never refreshed or is older than its lifetime.
pub fn should_refresh_cache(config: &ValidationConfig, last_refresh: Option<i64>, now: i64) -> (r: bool)
    ensures
        r == (config.enable_key_cache && match last_refresh {
            None => true,
            Some(t) => seconds_between(t, now) > config.cache_ttl_seconds as i64,
        }),
{
    if !config.enable_key_cache {
        return false;
    }
    match last_refresh {
        None => true,
        Some(t) => whole_seconds_between(t, now) > (config.cache_ttl_seconds as i64) as i128,
    }
}

/// Whether a key cached at `cached_at` may still be used at `now`: its
/// age is within the cache's lifetime.
pub fn cached_key_fresh(config: &ValidationConfig, cached_at: i64, now: i64) -> (r: bool)
    ensures
        r == (seconds_between(cached_at, now) <= config.cache_ttl_seconds as i64),
{
    whole_seconds_between(cached_at, now) <= (config.cache_ttl_seconds as i64) as i128
}

/// Whether a token is unusually large: more than a thousand bytes.
pub fn unusually_large_token(token: &str) -> (r: bool)
    ensures
        r == (crate::runtime::text::byte_len(token@) > 1000),
{
    token.as_bytes().len() > 1000
}

/// What trying the keys `keys` in turn on `raw` at `now` gives: the claims
/// from the first key under which the token validates, with `skew` seconds
/// of clock skew; the error of a key whose material does not decode; or,
/// when no key validates it, a failure.
pub open spec fn first_key_validation(raw: Seq<char>, keys: Seq<KeyVersion>, skew: u64, now: u64) -> Result<
    ClaimsView,
    Seq<char>,
>
    decreases keys.len(),
{
    if keys.len() == 0 {
        Err("Token validation failed with all available keys"@)
    } else {
        match hex_decoded(keys[0].key_material@) {
            Err(m) => Err("Failed to get key bytes: Failed to decode key material: "@ + m),
            Ok(b) => match hs256_validation(raw, b, skew, now) {
                Ok(c) => Ok(c),
                Err(_) => first_key_validation(raw, keys.skip(1), skew, now),
            },
        }
    }
}

/// What validating `raw` at `now` against the keys `keys` that validate
/// gives: refused when there is no key, else as the keys tried in turn
/// decide.
pub open spec fn rotating_validation(raw: Seq<char>, keys: Seq<KeyVersion>, skew: u64, now: u64) -> Result<
    ClaimsView,
    Seq<char>,
> {
    if keys.len() == 0 {
        Err("No valid keys available for validation"@)
    } else {
        first_key_validation(raw, keys, skew, now)
    }
}

/// Validates `raw` at `now_secs` against the keys `keys`, trying each in
/// turn, with `skew` seconds of clock skew.
pub fn validate_with_keys(raw: &str, keys: &Vec<KeyVersion>, skew: u64, now_secs: u64) -> (r: Result<
    Claims,
    Error,
>)
    ensures
        match rotating_validation(raw@, keys@, skew, now_secs) {
            Ok(c) => r matches Ok(k) && claims_view(k) == c,
            Err(m) => r matches Err(e) && e.message() == m,
        },
{
    if keys.len() == 0 {
        proof {
            reveal_strlit("No valid keys available for validation");
        }
        return Err(Error::new("No valid keys available for validation"));
    }
    let mut i: usize = 0;
    proof {
        assert(keys@.skip(0) =~= keys@);
    }
    while i < keys.len()
        invariant
            i <= keys@.len(),
            keys@.len() > 0,
            rotating_validation(raw@, keys@, skew, now_secs) == first_key_validation(
                raw@,
                keys@.skip(i as int),
                skew,
                now_secs,
            ),
        decreases keys.len() - i,
    {
        proof {
            assert(keys@.skip(i as int)[0] == keys@[i as int]);
            assert(keys@.skip(i as int).skip(1) =~= keys@.skip(i + 1));
        }
        let bytes = match keys[i].key_bytes() {
            Ok(b) => b,
            Err(e) => {
                let m = join_text("Failed to get key bytes: ", e.as_str());
                proof {
                    reveal_strlit("Failed to get key bytes: ");
                    reveal_strlit("Failed to get key bytes: Failed to decode key material: ");
                    reveal_strlit("Failed to decode key material: ");
                    assert(m@ =~= "Failed to get key bytes: Failed to decode key material: "@ + hex_decoded(
                        keys@[i as int].key_material@,
                    )->Err_0);
                }
                return Err(Error::new(m.as_str()));
            },
        };
        match validate_hs256(raw, bytes.as_slice(), skew, now_secs) {
            Ok(c) => {
                return Ok(c);
            },
            Err(_) => {},
        }
        i = i + 1;
    }
    proof {
        assert(keys@.skip(i as int) =~= Seq::<KeyVersion>::empty());
        reveal_strlit("Token validation failed with all available keys");
    }
    Err(Error::new("Token validation failed with all available keys"))
}

/// Validates tokens against the keys of a key store that still validate.
pub struct RotatingJwtValidator<S> {
    key_store: S,
    validation_config: ValidationConfig,
}

impl<S: KeyStore> RotatingJwtValidator<S> {
    /// The settings, as a spec value.
    pub closed spec fn settings(&self) -> ValidationConfig {
        self.validation_config
    }

    /// A validator of the keys of `key_store`, with `validation_config`.
    pub fn new(key_store: S, validation_config: ValidationConfig) -> (v: Self)
        ensures
            v.settings() == validation_config,
    {
        RotatingJwtValidator { key_store, validation_config }
    }

    /// The key store.
    pub fn key_store(&self) -> &S {
        &self.key_store
    }

    /// The claims of `raw` at `now_secs`: the store's keys that validate are
    /// tried in turn, with the configured clock skew; a store failure is
    /// reported as such.
    pub fn validate_at(&self, raw: &str, now_secs: u64) -> (r: Result<Claims, Error>)
        ensures
            r is Ok ==> exists|keys: Seq<KeyVersion>|
                #[trigger] rotating_validation(raw@, keys, self.settings().clock_skew_seconds, now_secs)
                    == Ok::<ClaimsView, Seq<char>>(claims_view(r->Ok_0)),
    {
        let keys = match self.key_store.get_valid_keys() {
            Ok(k) => k,
            Err(e) => {
                let m = join_text("Failed to get valid keys: ", e.as_str());
                return Err(Error::new(m.as_str()));
            },
        };
        let r = validate_with_keys(raw, &keys, self.validation_config.clock_skew_seconds, now_secs);
        proof {
            if r is Ok {
                assert(rotating_validation(raw@, keys@, self.settings().clock_skew_seconds, now_secs)
                    == Ok::<ClaimsView, Seq<char>>(claims_view(r->Ok_0)));
            }
        }
        r
    }
}

/// Whole seconds since the epoch now, 0 before it.
fn seconds_now() -> (s: u64) {
    let now = crate::support::now_millis();
    if now < 0 {
        0
    } else {
        (now / 1000) as u64
    }
}

impl<S: KeyStore> TokenValidator for RotatingJwtValidator<S> {
    /// The claims of `raw` now.
    fn validate(&self, raw: &str) -> (r: Result<Claims, Error>) {
        self.validate_at(raw, seconds_now())
    }
}

} // verus!
