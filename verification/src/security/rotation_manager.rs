//! The manager of key rotation: it keeps the generation of the last key
//! made, makes the first key, rotates keys by hand or when the active one
//! is about to expire, and reports on the keys of its store. The timer that
//! drives automatic rotation runs outside; each of its ticks is one call of
//! `rotation_tick`. Times and durations are milliseconds.

use vstd::prelude::*;
use crate::security::key_rotation::{KeyStore, KeyVersion, RotationConfig, RotationEventHandler};
use crate::support::now_millis;

verus! {

/// What the manager reports on its keys.
#[derive(Debug, Clone)]
pub struct RotationStats {
    /// Every key version kept.
    pub total_keys: usize,
    /// The versions that validate now.
    pub valid_keys: usize,
    /// The generation of the last key made.
    pub current_generation: u64,
    /// The key that signs, if any.
    pub active_key_id: Option<u128>,
    /// When the latest key was made.
    pub last_rotation: Option<i64>,
    /// When the signing key expires.
    pub next_rotation: Option<i64>,
}

/// The quotient of `a` by `b`, rounded toward zero.
pub open spec fn quotient_toward_zero(a: int, b: int) -> int {
    if a >= 0 {
        a / b
    } else {
        -((-a) / b)
    }
}

/// Whether a rotation is due at `now`: there is no active key, or the
/// active key expires within a tenth of the rotation interval.
pub open spec fn rotation_due(active: Option<KeyVersion>, now: i64, rotation_interval: i64) -> bool {
    match active {
        None => true,
        Some(k) => k.expires_at - now <= quotient_toward_zero(rotation_interval as int, 10),
    }
}

/// Whether a rotation is due at `now`.
pub fn needs_rotation(active: &Option<KeyVersion>, now: i64, rotation_interval: i64) -> (r: bool)
    ensures
        r == rotation_due(*active, now, rotation_interval),
{
    match active {
        None => true,
        Some(k) => {
            let until: i128 = (k.expires_at as i128) - (now as i128);
            let tenth: i128 = if rotation_interval >= 0 {
                (rotation_interval / 10) as i128
            } else {
                -((-(rotation_interval as i128)) / 10)
            };
            until <= tenth
        },
    }
}

/// The greatest generation among `keys`, 0 for none.
pub open spec fn max_generation_of(keys: Seq<KeyVersion>) -> u64
    decreases keys.len(),
{
    if keys.len() == 0 {
        0
    } else {
        let m = max_generation_of(keys.drop_last());
        if keys.last().generation > m {
            keys.last().generation
        } else {
            m
        }
    }
}

/// The greatest generation among `keys`, 0 for none.
pub fn max_generation(keys: &Vec<KeyVersion>) -> (r: u64)
    ensures
        r == max_generation_of(keys@),
{
    let mut m: u64 = 0;
    let mut i: usize = 0;
    while i < keys.len()
        invariant
            i <= keys@.len(),
            m == max_generation_of(keys@.take(i as int)),
        decreases keys.len() - i,
    {
        proof {
            assert(keys@.take(i + 1).drop_last() =~= keys@.take(i as int));
        }
        if keys[i].generation > m {
            m = keys[i].generation;
        }
        i = i + 1;
    }
    assert(keys@.take(keys@.len() as int) =~= keys@);
    m
}

/// The latest creation time among `keys`.
pub open spec fn latest_creation(keys: Seq<KeyVersion>) -> Option<i64>
    decreases keys.len(),
{
    if keys.len() == 0 {
        None
    } else {
        match latest_creation(keys.drop_last()) {
            None => Some(keys.last().created_at),
            Some(t) => Some(if keys.last().created_at > t { keys.last().created_at } else { t }),
        }
    }
}

/// The report on a store whose keys are `all`, of which `valid` validate,
/// whose signing key is `active`, after the generation `generation`.
pub fn rotation_stats_of(
    all: &Vec<KeyVersion>,
    valid: &Vec<KeyVersion>,
    active: &Option<KeyVersion>,
    generation: u64,
) -> (s: RotationStats)
    ensures
        s.total_keys == all@.len(),
        s.valid_keys == valid@.len(),
        s.current_generation == generation,
        s.active_key_id == match *active {
            Some(k) => Some(k.id),
            None => None::<u128>,
        },
        s.last_rotation == latest_creation(all@),
        s.next_rotation == match *active {
            Some(k) => Some(k.expires_at),
            None => None::<i64>,
        },
{
    let mut last: Option<i64> = None;
    let mut i: usize = 0;
    while i < all.len()
        invariant
            i <= all@.len(),
            last == latest_creation(all@.take(i as int)),
        decreases all.len() - i,
    {
        proof {
            assert(all@.take(i + 1).drop_last() =~= all@.take(i as int));
        }
        let t = all[i].created_at;
        last = match last {
            None => Some(t),
            Some(l) => Some(if t > l { t } else { l }),
        };
        i = i + 1;
    }
    assert(all@.take(all@.len() as int) =~= all@);
    RotationStats {
        total_keys: all.len(),
        valid_keys: valid.len(),
        current_generation: generation,
        active_key_id: match active {
            Some(k) => Some(k.id),
            None => None,
        },
        last_rotation: last,
        next_rotation: match active {
            Some(k) => Some(k.expires_at),
            None => None,
        },
    }
}

/// Rotates the keys of `store`, telling `event_handler`.
pub struct KeyRotationManager<S, E> {
    store: S,
    event_handler: E,
    config: RotationConfig,
    current_generation: u64,
    automatic: bool,
}

impl<S: KeyStore, E: RotationEventHandler> KeyRotationManager<S, E> {
    /// The generation of the last key made, 0 before the first.
    pub closed spec fn generation(&self) -> u64 {
        self.current_generation
    }

    /// Whether automatic rotation runs.
    pub closed spec fn automatic_spec(&self) -> bool {
        self.automatic
    }

    /// The settings.
    pub closed spec fn settings(&self) -> RotationConfig {
        self.config
    }

    /// A manager of `store` with the settings `config`; no key is made yet
    /// and automatic rotation does not run.
    pub fn new(store: S, event_handler: E, config: RotationConfig) -> (m: Self)
        ensures
            m.generation() == 0,
            !m.automatic_spec(),
            m.settings() == config,
    {
        KeyRotationManager { store, event_handler, config, current_generation: 0, automatic: false }
    }

    /// The store.
    pub fn store(&self) -> &S {
        &self.store
    }

    /// The event handler.
    pub fn event_handler(&self) -> &E {
        &self.event_handler
    }

    /// Whether automatic rotation runs.
    pub fn is_automatic(&self) -> (r: bool)
        ensures
            r == self.automatic_spec(),
    {
        self.automatic
    }

    /// A new active key of the next generation, made now.
    fn generate_new_key(&mut self) -> (r: Result<KeyVersion, String>)
        requires
            old(self).generation() < u64::MAX,
        ensures
            final(self).generation() == old(self).generation() + 1,
            final(self).settings() == old(self).settings(),
            final(self).automatic_spec() == old(self).automatic_spec(),
            r matches Ok(k) ==> k.generation == final(self).generation() && k.is_active && k.expires_at
                == k.created_at + old(self).settings().rotation_interval && k.valid_until == k.created_at
                + old(self).settings().rotation_interval + old(self).settings().overlap_period
                && k.key_material@.len() == 64,
    {
        self.current_generation = self.current_generation + 1;
        KeyVersion::new(self.current_generation, self.config.rotation_interval, self.config.overlap_period)
    }

    /// Makes the first key when the store has no active one; otherwise
    /// takes up the greatest generation of the stored keys. Automatic
    /// rotation then starts if the settings ask for it.
    pub fn initialize(&mut self) -> (r: Result<(), String>)
        requires
            old(self).generation() < u64::MAX,
        ensures
            final(self).settings() == old(self).settings(),
            r is Ok ==> final(self).automatic_spec() == (old(self).automatic_spec()
                || old(self).settings().auto_rotation_enabled),
    {
        let active = match self.store.get_active_key() {
            Ok(a) => a,
            Err(e) => {
                return Err(e);
            },
        };
        match active {
            None => {
                let key = match self.generate_new_key() {
                    Ok(k) => k,
                    Err(e) => {
                        return Err(e);
                    },
                };
                if let Err(e) = self.store.store_key(&key) {
                    return Err(e);
                }
                if let Err(e) = self.event_handler.on_key_generated(&key) {
                    return Err(e);
                }
            },
            Some(_) => {
                let all = match self.store.get_all_keys() {
                    Ok(v) => v,
                    Err(e) => {
                        return Err(e);
                    },
                };
                self.current_generation = max_generation(&all);
            },
        }
        if self.config.auto_rotation_enabled {
            self.start_automatic_rotation();
        }
        Ok(())
    }

    /// Starts automatic rotation; false when it already runs.
    pub fn start_automatic_rotation(&mut self) -> (started: bool)
        ensures
            started == !old(self).automatic_spec(),
            final(self).automatic_spec(),
            final(self).generation() == old(self).generation(),
            final(self).settings() == old(self).settings(),
    {
        if self.automatic {
            return false;
        }
        self.automatic = true;
        true
    }

    /// Stops automatic rotation; false when it did not run.
    pub fn stop_automatic_rotation(&mut self) -> (stopped: bool)
        ensures
            stopped == old(self).automatic_spec(),
            !final(self).automatic_spec(),
            final(self).generation() == old(self).generation(),
            final(self).settings() == old(self).settings(),
    {
        let was = self.automatic;
        self.automatic = false;
        was
    }

    /// Replaces the active key by a new one of the next generation: the old
    /// key stops signing, the new one is stored, and the handler hears of
    /// the new key and of the rotation.
    pub fn rotate_key(&mut self) -> (r: Result<KeyVersion, String>)
        requires
            old(self).generation() < u64::MAX,
        ensures
            final(self).settings() == old(self).settings(),
            final(self).automatic_spec() == old(self).automatic_spec(),
            r matches Ok(k) ==> k.generation == old(self).generation() + 1 && k.is_active
                && final(self).generation() == k.generation && k.expires_at == k.created_at + old(
                self,
            ).settings().rotation_interval && k.valid_until == k.created_at + old(
                self,
            ).settings().rotation_interval + old(self).settings().overlap_period
                && k.key_material@.len() == 64,
    {
        let old_key = match self.store.get_active_key() {
            Ok(a) => a,
            Err(e) => {
                return Err(e);
            },
        };
        let new_key = match self.generate_new_key() {
            Ok(k) => k,
            Err(e) => {
                return Err(e);
            },
        };
        if let Some(old) = &old_key {
            if let Err(e) = self.store.deactivate_key(old.id) {
                return Err(e);
            }
        }
        if let Err(e) = self.store.store_key(&new_key) {
            return Err(e);
        }
        if let Err(e) = self.event_handler.on_key_generated(&new_key) {
            return Err(e);
        }
        if let Some(old) = &old_key {
            if let Err(e) = self.event_handler.on_key_rotated(old, &new_key) {
                return Err(e);
            }
        }
        Ok(new_key)
    }

    /// The key that signs now, as the store has it.
    pub fn get_signing_key(&self) -> Result<Option<KeyVersion>, String> {
        self.store.get_active_key()
    }

    /// The keys that validate now, as the store has them.
    pub fn get_validation_keys(&self) -> Result<Vec<KeyVersion>, String> {
        self.store.get_valid_keys()
    }

    /// The report on the keys of the store.
    pub fn get_rotation_stats(&self) -> (r: Result<RotationStats, String>)
        ensures
            r matches Ok(s) ==> s.current_generation == self.generation(),
    {
        let all = match self.store.get_all_keys() {
            Ok(v) => v,
            Err(e) => {
                return Err(e);
            },
        };
        let valid = match self.store.get_valid_keys() {
            Ok(v) => v,
            Err(e) => {
                return Err(e);
            },
        };
        let active = match self.store.get_active_key() {
            Ok(a) => a,
            Err(e) => {
                return Err(e);
            },
        };
        Ok(rotation_stats_of(&all, &valid, &active, self.current_generation))
    }

    /// Rotates when a rotation is due at `now`: the store has no active
    /// key, or it expires within a tenth of the rotation interval. Gives
    /// whether a rotation happened.
    pub fn perform_rotation_check_at(&mut self, now: i64) -> (r: Result<bool, String>)
        requires
            old(self).generation() < u64::MAX,
        ensures
            final(self).settings() == old(self).settings(),
            final(self).automatic_spec() == old(self).automatic_spec(),
            r == Ok::<bool, String>(false) ==> final(self).generation() == old(self).generation(),
            r == Ok::<bool, String>(true) ==> final(self).generation() == old(self).generation() + 1,
            final(self).generation() == old(self).generation() || final(self).generation()
                == old(self).generation() + 1,
    {
        let active = match self.store.get_active_key() {
            Ok(a) => a,
            Err(e) => {
                return Err(e);
            },
        };
        if !needs_rotation(&active, now, self.config.rotation_interval) {
            return Ok(false);
        }
        let new_key = match self.generate_new_key() {
            Ok(k) => k,
            Err(e) => {
                return Err(e);
            },
        };
        if let Some(old) = &active {
            if let Err(e) = self.store.deactivate_key(old.id) {
                return Err(e);
            }
        }
        if let Err(e) = self.store.store_key(&new_key) {
            return Err(e);
        }
        if let Err(e) = self.event_handler.on_key_generated(&new_key) {
            return Err(e);
        }
        if let Some(old) = &active {
            if let Err(e) = self.event_handler.on_key_rotated(old, &new_key) {
                return Err(e);
            }
        }
        Ok(true)
    }

    /// One tick of automatic rotation at `now`: rotates when due (a failure
    /// is told to the handler), then drops the expired keys of the store
    /// and tells the handler how many, when there were any.
    pub fn rotation_tick_at(&mut self, now: i64) -> (rotated: bool)
        requires
            old(self).generation() < u64::MAX,
        ensures
            final(self).settings() == old(self).settings(),
            final(self).automatic_spec() == old(self).automatic_spec(),
            final(self).generation() == old(self).generation() || final(self).generation()
                == old(self).generation() + 1,
            rotated ==> final(self).generation() == old(self).generation() + 1,
    {
        let rotated = match self.perform_rotation_check_at(now) {
            Ok(done) => done,
            Err(e) => {
                let _ = self.event_handler.on_rotation_failed(e.as_str());
                false
            },
        };
        match self.store.cleanup_expired_keys() {
            Ok(count) => {
                if count > 0 {
                    let _ = self.event_handler.on_keys_cleaned_up(count);
                }
            },
            Err(_) => {},
        }
        rotated
    }

    /// One tick of automatic rotation, now.
    pub fn rotation_tick(&mut self) -> (rotated: bool)
        requires
            old(self).generation() < u64::MAX,
        ensures
            final(self).settings() == old(self).settings(),
            rotated ==> final(self).generation() == old(self).generation() + 1,
    {
        let now = now_millis();
        self.rotation_tick_at(now)
    }
}

} // verus!
