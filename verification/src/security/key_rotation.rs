//! Rotation of token signing keys: versioned keys and when each may sign
//! or validate, the rotation settings, and the audit of key events with
//! its counters. Identifiers are 128-bit values; times and durations are
//! milliseconds.

use vstd::prelude::*;
use crate::support::{now_millis, random_uuid, join_text, hex_text, hex_encode};

verus! {

/// A versioned signing key.
#[derive(Debug, Clone)]
pub struct KeyVersion {
    /// Identifier of this version.
    pub id: u128,
    /// The key, as hex text.
    pub key_material: String,
    /// When it was made.
    pub created_at: i64,
    /// When it stops signing.
    pub expires_at: i64,
    /// When it stops validating.
    pub valid_until: i64,
    /// Whether it signs new tokens.
    pub is_active: bool,
    /// Its generation.
    pub generation: u64,
}

/// Fills 32 bytes through `rand::RngCore::fill_bytes` on
/// `rand::thread_rng()`. The bytes are random, so nothing is promised of
/// them but their number.
#[verifier::external_body]
fn random_key_bytes() -> (r: Vec<u8>)
    ensures
        r@.len() == 32,
{
    let mut bytes = [0u8;32];
    rand::RngCore::fill_bytes(&mut rand::thread_rng(), &mut bytes);
    bytes.to_vec()
}

/// A fresh 256-bit key as hex text: 64 lowercase hex digits.
pub fn generate_secure_key() -> (r: Result<String, String>)
    ensures
        r matches Ok(k) && exists|b: Seq<u8>| b.len() == 32 && k@ == hex_text(b),
{
    let bytes = random_key_bytes();
    let text = hex_encode(bytes.as_slice());
    proof {
        assert(text@ == hex_text(bytes@));
    }
    Ok(text)
}

/// What `hex::decode` makes of a text: its bytes, or its error's text.
pub uninterp spec fn hex_decoded(s: Seq<char>) -> Result<Seq<u8>, Seq<char>>;

/// Decodes hex text through `hex::decode`, giving its bytes or the text of
/// its error (`Display`).
#[verifier::external_body]
fn hex_decode(s: &str) -> (r: Result<Vec<u8>, String>)
    ensures
        match r {
            Ok(b) => hex_decoded(s@) == Ok::<Seq<u8>, Seq<char>>(b@),
            Err(e) => hex_decoded(s@) == Err::<Seq<u8>, Seq<char>>(e@),
        },
{
    hex::decode(s).map_err(|e| e.to_string())
}

/// The length of `hex_text(b)`.
proof fn lemma_hex_text_len(b: Seq<u8>)
    ensures
        hex_text(b).len() == 2 * b.len(),
    decreases b.len(),
{
    if b.len() > 0 {
        lemma_hex_text_len(b.drop_last());
    }
}

impl KeyVersion {
    /// A new active key of generation `generation`, made now with fresh
    /// key material: it signs for `rotation_interval` and validates for
    /// `overlap_period` more.
    pub fn new(generation: u64, rotation_interval: i64, overlap_period: i64) -> (r: Result<KeyVersion, String>)
        ensures
            r matches Ok(k) ==> {
                &&& k.generation == generation
                &&& k.is_active
                &&& k.expires_at == k.created_at + rotation_interval
                &&& k.valid_until == k.created_at + rotation_interval + overlap_period
                &&& k.key_material@.len() == 64
                &&& exists|b: Seq<u8>| b.len() == 32 && k.key_material@ == hex_text(b)
            },
            r matches Err(e) ==> (rotation_interval != 0 || overlap_period != 0)
                && e@ == "Key validity ends beyond the representable time"@,
    {
        let now = now_millis();
        let material = match generate_secure_key() {
            Ok(k) => k,
            Err(e) => {
                return Err(e);
            },
        };
        proof {
            let b = choose|b: Seq<u8>| b.len() == 32 && material@ == hex_text(b);
            lemma_hex_text_len(b);
        }
        let expires: i128 = now as i128 + rotation_interval as i128;
        let valid: i128 = expires + overlap_period as i128;
        if expires < i64::MIN as i128 || expires > i64::MAX as i128 || valid < i64::MIN as i128 || valid
            > i64::MAX as i128 {
            proof {
                reveal_strlit("Key validity ends beyond the representable time");
            }
            return Err("Key validity ends beyond the representable time".to_owned());
        }
        Ok(
            KeyVersion {
                id: random_uuid(),
                key_material: material,
                created_at: now,
                expires_at: expires as i64,
                valid_until: valid as i64,
                is_active: true,
                generation,
            },
        )
    }

    /// Whether the key validates tokens at `now`.
    pub fn is_valid_for_validation_at(&self, now: i64) -> (r: bool)
        ensures
            r == (now < self.valid_until),
    {
        now < self.valid_until
    }

    /// Whether the key validates tokens now.
    pub fn is_valid_for_validation(&self) -> (r: bool) {
        self.is_valid_for_validation_at(now_millis())
    }

    /// Whether the key signs new tokens at `now`.
    pub fn is_active_for_signing_at(&self, now: i64) -> (r: bool)
        ensures
            r == (self.is_active && now < self.expires_at),
    {
        self.is_active && now < self.expires_at
    }

    /// Whether the key signs new tokens now.
    pub fn is_active_for_signing(&self) -> (r: bool)
        ensures
            !self.is_active ==> !r,
    {
        self.is_active_for_signing_at(now_millis())
    }

    /// The key's bytes, decoded from its hex text.
    pub fn key_bytes(&self) -> (r: Result<Vec<u8>, String>)
        ensures
            match hex_decoded(self.key_material@) {
                Ok(b) => r matches Ok(v) && v@ == b,
                Err(e) => r matches Err(m) && m@ == "Failed to decode key material: "@ + e,
            },
    {
        match hex_decode(self.key_material.as_str()) {
            Ok(b) => Ok(b),
            Err(e) => Err(join_text("Failed to decode key material: ", e.as_str())),
        }
    }
}

/// Settings of key rotation.
#[derive(Debug, Clone)]
pub struct RotationConfig {
    /// How often keys rotate.
    pub rotation_interval: i64,
    /// How long an old key still validates.
    pub overlap_period: i64,
    /// Most key versions kept.
    pub max_key_versions: usize,
    /// Whether keys rotate by themselves.
    pub auto_rotation_enabled: bool,
}

impl Default for RotationConfig {
    fn default() -> (c: Self)
        ensures
            c.rotation_interval == 86_400_000,
            c.overlap_period == 3_600_000,
            c.max_key_versions == 10,
            c.auto_rotation_enabled,
    {
        RotationConfig {
            rotation_interval: 86_400_000,
            overlap_period: 3_600_000,
            max_key_versions: 10,
            auto_rotation_enabled: true,
        }
    }
}

/// Where key versions are kept.
pub trait KeyStore {
    /// Keeps `key`.
    fn store_key(&mut self, key: &KeyVersion) -> Result<(), String>;

    /// The version `key_id`, if kept.
    fn get_key(&self, key_id: u128) -> Result<Option<KeyVersion>, String>;

    /// The key that signs now, if any.
    fn get_active_key(&self) -> Result<Option<KeyVersion>, String>;

    /// The keys that validate now.
    fn get_valid_keys(&self) -> Result<Vec<KeyVersion>, String>;

    /// Stops `key_id` from signing.
    fn deactivate_key(&mut self, key_id: u128) -> Result<(), String>;

    /// Drops expired keys; gives how many.
    fn cleanup_expired_keys(&mut self) -> Result<usize, String>;

    /// Every kept version.
    fn get_all_keys(&self) -> Result<Vec<KeyVersion>, String>;
}

/// What is told of key rotation.
pub trait RotationEventHandler {
    /// A key was made.
    fn on_key_generated(&mut self, key: &KeyVersion) -> Result<(), String>;

    /// A key replaced another.
    fn on_key_rotated(&mut self, old_key: &KeyVersion, new_key: &KeyVersion) -> Result<(), String>;

    /// Expired keys were dropped.
    fn on_keys_cleaned_up(&mut self, count: usize) -> Result<(), String>;

    /// A rotation failed.
    fn on_rotation_failed(&mut self, error: &str) -> Result<(), String>;
}

/// Who made a request, for the audit.
#[derive(Debug, Clone)]
pub struct ClientInfo {
    /// Address.
    pub ip_address: Option<String>,
    /// User agent.
    pub user_agent: Option<String>,
    /// Request identifier.
    pub request_id: Option<String>,
}

/// Kinds of security alerts.
#[derive(Debug, Clone, Copy, PartialEq, Eq, Structural)]
pub enum SecurityAlertType {
    /// Repeated failed validations.
    RepeatedFailures,
    /// A token used again.
    TokenReuse,
    /// An expired key used.
    ExpiredKeyUsage,
    /// A key of invalid form.
    InvalidKeyFormat,
    /// A rate limit exceeded.
    RateLimitExceeded,
    /// Suspicious timing.
    TimingAnomaly,
}

/// Severity of an alert, from low to critical.
#[derive(Debug, Clone, Copy, PartialEq, Eq, Structural, PartialOrd, Ord)]
pub enum AlertSeverity {
    /// Low.
    Low,
    /// Medium.
    Medium,
    /// High.
    High,
    /// Critical.
    Critical,
}

/// The rank of a severity, 1 (low) to 4 (critical).
pub open spec fn severity_rank(s: AlertSeverity) -> int {
    match s {
        AlertSeverity::Low => 1,
        AlertSeverity::Medium => 2,
        AlertSeverity::High => 3,
        AlertSeverity::Critical => 4,
    }
}

impl AlertSeverity {
    /// The rank, 1 (low) to 4 (critical).
    pub fn rank(&self) -> (r: u8)
        ensures
            r == severity_rank(*self),
    {
        match self {
            AlertSeverity::Low => 1,
            AlertSeverity::Medium => 2,
            AlertSeverity::High => 3,
            AlertSeverity::Critical => 4,
        }
    }

    /// Whether this severity is at least `other`.
    pub fn at_least(&self, other: AlertSeverity) -> (r: bool)
        ensures
            r == (severity_rank(*self) >= severity_rank(other)),
    {
        self.rank() >= other.rank()
    }

    /// The name: `LOW`, `MEDIUM`, `HIGH` or `CRITICAL`.
    pub fn to_text(&self) -> (s: String)
        ensures
            s@ == match *self {
                AlertSeverity::Low => "LOW"@,
                AlertSeverity::Medium => "MEDIUM"@,
                AlertSeverity::High => "HIGH"@,
                AlertSeverity::Critical => "CRITICAL"@,
            },
    {
        match self {
            AlertSeverity::Low => "LOW".to_owned(),
            AlertSeverity::Medium => "MEDIUM".to_owned(),
            AlertSeverity::High => "HIGH".to_owned(),
            AlertSeverity::Critical => "CRITICAL".to_owned(),
        }
    }
}

/// An event of the key audit.
#[derive(Debug, Clone)]
pub enum AuditEvent {
    /// A key was made.
    KeyGenerated { key_id: u128, generation: u64, created_at: i64, expires_at: i64 },
    /// A key replaced another.
    KeyRotated {
        old_key_id: u128,
        old_generation: u64,
        new_key_id: u128,
        new_generation: u64,
        rotated_at: i64,
    },
    /// Expired keys were dropped.
    KeysCleanedUp { count: usize, cleaned_at: i64 },
    /// A rotation failed.
    RotationFailed { error_message: String, failed_at: i64 },
    /// A key was used to validate a token.
    KeyValidation { key_id: u128, success: bool, validated_at: i64, client_info: Option<ClientInfo> },
    /// Something suspicious was seen; `metadata` is JSON text.
    SecurityAlert {
        alert_type: SecurityAlertType,
        description: String,
        severity: AlertSeverity,
        detected_at: i64,
        metadata: String,
    },
}

/// The name under which an event is counted.
pub open spec fn event_name(e: AuditEvent) -> Seq<char> {
    match e {
        AuditEvent::KeyGenerated { .. } => "key_generated"@,
        AuditEvent::KeyRotated { .. } => "key_rotated"@,
        AuditEvent::KeysCleanedUp { .. } => "keys_cleaned_up"@,
        AuditEvent::RotationFailed { .. } => "rotation_failed"@,
        AuditEvent::KeyValidation { .. } => "key_validation"@,
        AuditEvent::SecurityAlert { .. } => "security_alert"@,
    }
}

/// Settings of the key audit.
#[derive(Debug, Clone)]
pub struct AuditConfig {
    /// Whether events are logged.
    pub structured_logging: bool,
    /// Whether alerts are raised at once.
    pub real_time_alerts: bool,
    /// Least severity of an immediate alert.
    pub alert_threshold: AlertSeverity,
    /// Whether events are batched.
    pub batch_events: bool,
    /// Largest batch.
    pub batch_size: usize,
    /// Longest wait before a batch is flushed, in seconds.
    pub batch_timeout_secs: u64,
}

impl Default for AuditConfig {
    fn default() -> (c: Self)
        ensures
            c.structured_logging,
            c.real_time_alerts,
            c.alert_threshold == AlertSeverity::Medium,
            !c.batch_events,
            c.batch_size == 100,
            c.batch_timeout_secs == 30,
    {
        AuditConfig {
            structured_logging: true,
            real_time_alerts: true,
            alert_threshold: AlertSeverity::Medium,
            batch_events: false,
            batch_size: 100,
            batch_timeout_secs: 30,
        }
    }
}

/// Counters of the key audit.
#[derive(Debug, Clone)]
pub struct AuditMetrics {
    /// Events seen.
    pub total_events: u64,
    /// Events seen by name.
    pub events_by_type: Vec<(String, u64)>,
    /// Alerts seen.
    pub alerts_generated: u64,
    /// Events the store failed to keep.
    pub storage_errors: u64,
    /// When the last event was seen.
    pub last_event_time: Option<i64>,
}

/// Where audit events are kept.
pub trait AuditStore {
    /// Keeps `event`.
    fn store_event(&mut self, event: &AuditEvent) -> Result<(), String>;

    /// The events between `start` and `end`, of the given names if any.
    fn query_events(&self, start: i64, end: i64, event_types: Option<Vec<String>>) -> Result<Vec<AuditEvent>, String>;

    /// The alerts of at least `min_severity`.
    fn get_alerts(&self, min_severity: AlertSeverity) -> Result<Vec<AuditEvent>, String>;

    /// Archives the events before `before`; gives how many.
    fn archive_events(&mut self, before: i64) -> Result<usize, String>;
}

/// The count recorded under `name`, 0 when none.
pub open spec fn count_of(v: Seq<(String, u64)>, name: Seq<char>) -> int
    decreases v.len(),
{
    if v.len() == 0 {
        0
    } else if v.last().0@ == name {
        v.last().1 as int
    } else {
        count_of(v.drop_last(), name)
    }
}

/// Whether every counter is within the number of events.
pub open spec fn counters_bounded(m: AuditMetrics) -> bool {
    &&& m.alerts_generated <= m.total_events
    &&& m.storage_errors <= m.total_events
    &&& forall|i: int| 0 <= i < m.events_by_type@.len() ==> #[trigger] m.events_by_type@[i].1 <= m.total_events
}

/// Logs key events to a store and counts them.
pub struct AuditEventHandler<S> {
    store: S,
    config: AuditConfig,
    metrics: AuditMetrics,
    handed: Ghost<Seq<AuditEvent>>,
}

impl<S: AuditStore> AuditEventHandler<S> {
    /// The counters, as a spec value.
    pub closed spec fn counters(&self) -> AuditMetrics {
        self.metrics
    }

    /// The settings, as a spec value.
    pub closed spec fn settings(&self) -> AuditConfig {
        self.config
    }

    /// The events handed to the store, oldest first.
    pub closed spec fn handed_events(&self) -> Seq<AuditEvent> {
        self.handed@
    }

    /// A handler that keeps events in `store`, with `config`; no events yet.
    pub fn new(store: S, config: AuditConfig) -> (h: Self)
        ensures
            h.counters().total_events == 0,
            h.counters().events_by_type@.len() == 0,
            h.counters().alerts_generated == 0,
            h.counters().storage_errors == 0,
            h.counters().last_event_time is None,
            h.settings() == config,
            h.handed_events() == Seq::<AuditEvent>::empty(),
    {
        AuditEventHandler {
            store,
            handed: Ghost(Seq::empty()),
            config,
            metrics: AuditMetrics {
                total_events: 0,
                events_by_type: Vec::new(),
                alerts_generated: 0,
                storage_errors: 0,
                last_event_time: None,
            },
        }
    }

    /// The store the events are handed to.
    pub fn store(&self) -> &S {
        &self.store
    }

    /// A copy of the counters.
    pub fn get_metrics(&self) -> (m: AuditMetrics)
        ensures
            m.total_events == self.counters().total_events,
            m.alerts_generated == self.counters().alerts_generated,
            m.storage_errors == self.counters().storage_errors,
            m.last_event_time == self.counters().last_event_time,
            m.events_by_type@.len() == self.counters().events_by_type@.len(),
            forall|i: int|
                0 <= i < m.events_by_type@.len() ==> #[trigger] m.events_by_type@[i].0@
                    == self.counters().events_by_type@[i].0@ && m.events_by_type@[i].1
                    == self.counters().events_by_type@[i].1,
    {
        let mut by_type: Vec<(String, u64)> = Vec::new();
        let mut i: usize = 0;
        while i < self.metrics.events_by_type.len()
            invariant
                i <= self.metrics.events_by_type@.len(),
                by_type@.len() == i,
                forall|j: int|
                    0 <= j < i ==> #[trigger] by_type@[j].0@ == self.metrics.events_by_type@[j].0@
                        && by_type@[j].1 == self.metrics.events_by_type@[j].1,
            decreases self.metrics.events_by_type.len() - i,
        {
            let entry = &self.metrics.events_by_type[i];
            by_type.push((entry.0.clone(), entry.1));
            i = i + 1;
        }
        AuditMetrics {
            total_events: self.metrics.total_events,
            events_by_type: by_type,
            alerts_generated: self.metrics.alerts_generated,
            storage_errors: self.metrics.storage_errors,
            last_event_time: self.metrics.last_event_time,
        }
    }

    /// Counts `event`, then keeps it in the store; a store failure is
    /// counted and given back.
    fn process_event(&mut self, event: &AuditEvent) -> (r: Result<(), String>)
        requires
            counters_bounded(old(self).counters()),
            old(self).counters().total_events < u64::MAX,
        ensures
            counters_bounded(final(self).counters()),
            final(self).counters().total_events == old(self).counters().total_events + 1,
            final(self).counters().last_event_time is Some,
            count_of(final(self).counters().events_by_type@, event_name(*event)) == count_of(
                old(self).counters().events_by_type@,
                event_name(*event),
            ) + 1,
            final(self).counters().alerts_generated == old(self).counters().alerts_generated + if event is SecurityAlert {
                1int
            } else {
                0int
            },
            final(self).counters().storage_errors == old(self).counters().storage_errors + if r is Err {
                1int
            } else {
                0int
            },
            final(self).settings() == old(self).settings(),
            final(self).handed_events() == old(self).handed_events().push(*event),
    {
        self.metrics.total_events = self.metrics.total_events + 1;
        self.metrics.last_event_time = Some(now_millis());
        let name = match event {
            AuditEvent::KeyGenerated { .. } => "key_generated",
            AuditEvent::KeyRotated { .. } => "key_rotated",
            AuditEvent::KeysCleanedUp { .. } => "keys_cleaned_up",
            AuditEvent::RotationFailed { .. } => "rotation_failed",
            AuditEvent::KeyValidation { .. } => "key_validation",
            AuditEvent::SecurityAlert { .. } => "security_alert",
        };
        bump_count(&mut self.metrics.events_by_type, name, self.metrics.total_events);
        match event {
            AuditEvent::SecurityAlert { .. } => {
                self.metrics.alerts_generated = self.metrics.alerts_generated + 1;
            },
            _ => {},
        }
        let stored = self.store.store_event(event);
        proof {
            self.handed@ = self.handed@.push(*event);
        }
        match stored {
            Ok(()) => Ok(()),
            Err(e) => {
                self.metrics.storage_errors = self.metrics.storage_errors + 1;
                Err(e)
            },
        }
    }

    /// Logs an alert of kind `alert_type`, detected now.
    pub fn log_security_alert(
        &mut self,
        alert_type: SecurityAlertType,
        description: String,
        severity: AlertSeverity,
        metadata: String,
    ) -> (r: Result<(), String>)
        requires
            counters_bounded(old(self).counters()),
            old(self).counters().total_events < u64::MAX,
        ensures
            counters_bounded(final(self).counters()),
            final(self).counters().total_events == old(self).counters().total_events + 1,
            final(self).counters().alerts_generated == old(self).counters().alerts_generated + 1,
            final(self).handed_events().len() == old(self).handed_events().len() + 1,
            final(self).handed_events().drop_last() == old(self).handed_events(),
            final(self).handed_events().last() matches AuditEvent::SecurityAlert {
                alert_type: a,
                description: d,
                severity: s,
                metadata: m,
                ..
            } && a == alert_type && d == description && s == severity && m == metadata,
            final(self).counters().storage_errors == old(self).counters().storage_errors + if r is Err {
                1int
            } else {
                0int
            },
    {
        let event = AuditEvent::SecurityAlert {
            alert_type,
            description,
            severity,
            detected_at: now_millis(),
            metadata,
        };
        self.process_event(&event)
    }

    /// Logs a validation with key `key_id`, now.
    pub fn log_key_validation(&mut self, key_id: u128, success: bool, client_info: Option<ClientInfo>) -> (r:
        Result<(), String>)
        requires
            counters_bounded(old(self).counters()),
            old(self).counters().total_events < u64::MAX,
        ensures
            counters_bounded(final(self).counters()),
            final(self).counters().total_events == old(self).counters().total_events + 1,
            final(self).counters().alerts_generated == old(self).counters().alerts_generated,
            final(self).handed_events().len() == old(self).handed_events().len() + 1,
            final(self).handed_events().drop_last() == old(self).handed_events(),
            final(self).handed_events().last() matches AuditEvent::KeyValidation {
                key_id: k,
                success: ok,
                client_info: c,
                ..
            } && k == key_id && ok == success && c == client_info,
            final(self).counters().storage_errors == old(self).counters().storage_errors + if r is Err {
                1int
            } else {
                0int
            },
    {
        let event = AuditEvent::KeyValidation { key_id, success, validated_at: now_millis(), client_info };
        self.process_event(&event)
    }

    /// Whether the counters can take one more event: they are within the
    /// number of events, which is below `u64::MAX`.
    fn can_count(&self) -> (r: bool)
        ensures
            r == (counters_bounded(self.counters()) && self.counters().total_events < u64::MAX),
    {
        if self.metrics.total_events == u64::MAX || self.metrics.alerts_generated > self.metrics.total_events || self.metrics.storage_errors
            > self.metrics.total_events {
            return false;
        }
        let mut i: usize = 0;
        while i < self.metrics.events_by_type.len()
            invariant
                i <= self.metrics.events_by_type@.len(),
                forall|j: int| 0 <= j < i ==> #[trigger] self.metrics.events_by_type@[j].1 <= self.metrics.total_events,
            decreases self.metrics.events_by_type.len() - i,
        {
            if self.metrics.events_by_type[i].1 > self.metrics.total_events {
                proof {
                    assert(self.metrics.events_by_type@[i as int].1 > self.metrics.total_events);
                }
                return false;
            }
            i = i + 1;
        }
        true
    }
}

/// The message given when the counters cannot take another event.
pub open spec fn counters_full() -> Seq<char> {
    "Audit counters cannot take another event"@
}

/// What `serde_json::to_string` makes of a text: the text as a JSON string
/// literal, quoted and escaped.
pub uninterp spec fn json_quoted(s: Seq<char>) -> Seq<char>;

/// Writes `s` as a JSON string literal through `serde_json::to_string`,
/// which does not fail on a `str`.
#[verifier::external_body]
fn quote_json(s: &str) -> (r: String)
    ensures
        r@ == json_quoted(s@),
{
    serde_json::to_string(s).unwrap_or_default()
}

/// The metadata of the alert raised when a rotation fails.
pub open spec fn rotation_failure_metadata(error: Seq<char>) -> Seq<char> {
    "{\"component\":\"key_rotation\",\"error\":"@ + json_quoted(error) + "}"@
}

impl<S: AuditStore> RotationEventHandler for AuditEventHandler<S> {
    /// Logs the new key.
    fn on_key_generated(&mut self, key: &KeyVersion) -> (r: Result<(), String>)
        ensures
            !(counters_bounded(old(self).counters()) && old(self).counters().total_events < u64::MAX)
                ==> (r matches Err(e) && e@ == counters_full() && *final(self) == *old(self)),
            counters_bounded(old(self).counters()) && old(self).counters().total_events < u64::MAX ==> {
                &&& final(self).handed_events() == old(self).handed_events().push(
                    AuditEvent::KeyGenerated {
                        key_id: key.id,
                        generation: key.generation,
                        created_at: key.created_at,
                        expires_at: key.expires_at,
                    },
                )
                &&& final(self).counters().total_events == old(self).counters().total_events + 1
            },
    {
        if !self.can_count() {
            proof {
                reveal_strlit("Audit counters cannot take another event");
            }
            return Err("Audit counters cannot take another event".to_string());
        }
        let event = AuditEvent::KeyGenerated {
            key_id: key.id,
            generation: key.generation,
            created_at: key.created_at,
            expires_at: key.expires_at,
        };
        self.process_event(&event)
    }

    /// Logs the rotation from `old_key` to `new_key`, now.
    fn on_key_rotated(&mut self, old_key: &KeyVersion, new_key: &KeyVersion) -> (r: Result<(), String>)
        ensures
            !(counters_bounded(old(self).counters()) && old(self).counters().total_events < u64::MAX)
                ==> (r matches Err(e) && e@ == counters_full() && *final(self) == *old(self)),
            counters_bounded(old(self).counters()) && old(self).counters().total_events < u64::MAX ==> {
                &&& final(self).handed_events().drop_last() == old(self).handed_events()
                &&& final(self).handed_events().last() matches AuditEvent::KeyRotated {
                    old_key_id: a,
                    old_generation: b,
                    new_key_id: c,
                    new_generation: d,
                    ..
                } && a == old_key.id && b == old_key.generation && c == new_key.id && d == new_key.generation
                &&& final(self).counters().total_events == old(self).counters().total_events + 1
            },
    {
        if !self.can_count() {
            proof {
                reveal_strlit("Audit counters cannot take another event");
            }
            return Err("Audit counters cannot take another event".to_string());
        }
        let event = AuditEvent::KeyRotated {
            old_key_id: old_key.id,
            old_generation: old_key.generation,
            new_key_id: new_key.id,
            new_generation: new_key.generation,
            rotated_at: now_millis(),
        };
        let r = self.process_event(&event);
        proof {
            assert(self.handed_events().drop_last() =~= old(self).handed_events());
        }
        r
    }

    /// Logs that `count` expired keys were dropped, now.
    fn on_keys_cleaned_up(&mut self, count: usize) -> (r: Result<(), String>)
        ensures
            !(counters_bounded(old(self).counters()) && old(self).counters().total_events < u64::MAX)
                ==> (r matches Err(e) && e@ == counters_full() && *final(self) == *old(self)),
            counters_bounded(old(self).counters()) && old(self).counters().total_events < u64::MAX ==> {
                &&& final(self).handed_events().drop_last() == old(self).handed_events()
                &&& final(self).handed_events().last() matches AuditEvent::KeysCleanedUp { count: c, .. }
                    && c == count
                &&& final(self).counters().total_events == old(self).counters().total_events + 1
            },
    {
        if !self.can_count() {
            proof {
                reveal_strlit("Audit counters cannot take another event");
            }
            return Err("Audit counters cannot take another event".to_string());
        }
        let event = AuditEvent::KeysCleanedUp { count, cleaned_at: now_millis() };
        let r = self.process_event(&event);
        proof {
            assert(self.handed_events().drop_last() =~= old(self).handed_events());
        }
        r
    }

    /// Logs the failure, now, then raises a high-severity timing alert
    /// about it; a store failure on the first stops there.
    fn on_rotation_failed(&mut self, error: &str) -> (r: Result<(), String>)
        ensures
            !(counters_bounded(old(self).counters()) && old(self).counters().total_events + 1 < u64::MAX)
                ==> (r matches Err(e) && e@ == counters_full() && *final(self) == *old(self)),
            counters_bounded(old(self).counters()) && old(self).counters().total_events + 1 < u64::MAX ==> {
                let h0 = old(self).handed_events();
                let h = final(self).handed_events();
                &&& h.len() >= h0.len() + 1
                &&& h.subrange(0, h0.len() as int) == h0
                &&& h[h0.len() as int] matches AuditEvent::RotationFailed { error_message: m, .. } && m@
                    == error@
                &&& h.len() == h0.len() + 2 ==> (h[h0.len() + 1int] matches AuditEvent::SecurityAlert {
                    alert_type: a,
                    description: d,
                    severity: s,
                    metadata: md,
                    ..
                } && a == SecurityAlertType::TimingAnomaly && d@ == "Key rotation failed: "@ + error@ && s
                    == AlertSeverity::High && md@ == rotation_failure_metadata(error@))
                &&& h.len() == h0.len() + 1 ==> r is Err
                &&& r is Ok ==> h.len() == h0.len() + 2
            },
    {
        if !self.can_count() || self.metrics.total_events == u64::MAX - 1 {
            proof {
                reveal_strlit("Audit counters cannot take another event");
            }
            return Err("Audit counters cannot take another event".to_string());
        }
        let event = AuditEvent::RotationFailed { error_message: error.to_string(), failed_at: now_millis() };
        let ghost h0 = self.handed_events();
        let ghost ev = event;
        match self.process_event(&event) {
            Ok(()) => {},
            Err(e) => {
                proof {
                    assert(self.handed_events().subrange(0, h0.len() as int) =~= h0);
                }
                return Err(e);
            },
        }
        let quoted = quote_json(error);
        let a = join_text("{\"component\":\"key_rotation\",\"error\":", quoted.as_str());
        let metadata = join_text(a.as_str(), "}");
        let description = join_text("Key rotation failed: ", error);
        let r = self.log_security_alert(SecurityAlertType::TimingAnomaly, description, AlertSeverity::High, metadata);
        proof {
            reveal_strlit("{\"component\":\"key_rotation\",\"error\":");
            reveal_strlit("}");
            let h = self.handed_events();
            assert(h.len() == h0.len() + 2);
            assert(h.drop_last() == h0.push(ev));
            assert(h[h0.len() as int] == h.drop_last()[h0.len() as int]);
            assert(h[h0.len() + 1int] == h.last());
            assert(h.subrange(0, h0.len() as int) =~= h0);
            assert(metadata@ =~= rotation_failure_metadata(error@));
        }
        r
    }
}

/// Adds one to the count of `name`, the last one recorded under it, or
/// records a count of one.
fn bump_count(v: &mut Vec<(String, u64)>, name: &str, bound: u64)
    requires
        forall|i: int| 0 <= i < old(v)@.len() ==> #[trigger] old(v)@[i].1 < bound,
        bound >= 1,
    ensures
        count_of(final(v)@, name@) == count_of(old(v)@, name@) + 1,
        forall|i: int| 0 <= i < final(v)@.len() ==> #[trigger] final(v)@[i].1 <= bound,
{
    let mut i: usize = v.len();
    proof {
        assert(v@.take(v@.len() as int) =~= v@);
    }
    while i > 0
        invariant
            i <= v@.len(),
            v@ == old(v)@,
            bound >= 1,
            forall|j: int| 0 <= j < v@.len() ==> #[trigger] v@[j].1 < bound,
            forall|j: int| i <= j < v@.len() ==> #[trigger] v@[j].0@ != name@,
            count_of(v@, name@) == count_of(v@.take(i as int), name@),
        decreases i,
    {
        proof {
            assert(v@.take(i as int).drop_last() =~= v@.take(i - 1));
            assert(v@.take(i as int).last() == v@[i - 1]);
        }
        if crate::runtime::text::same_text(v[i - 1].0.as_str(), name) {
            let ghost before = v@;
            let count = v[i - 1].1;
            let key = v[i - 1].0.clone();
            v.set(i - 1, (key, count + 1));
            proof {
                lemma_count_after_update(before, (i - 1) as int, name@, v@);
                assert forall|j: int| 0 <= j < v@.len() implies #[trigger] v@[j].1 <= bound by {
                    if j != i - 1 {
                        assert(v@[j] == before[j]);
                    }
                }
            }
            return;
        }
        i = i - 1;
    }
    let ghost before = v@;
    v.push((name.to_owned(), 1));
    proof {
        assert(v@.drop_last() =~= before);
        assert(before.take(0) =~= Seq::<(String, u64)>::empty());
        assert forall|j: int| 0 <= j < v@.len() implies #[trigger] v@[j].1 <= bound by {
            if j < before.len() {
                assert(v@[j] == before[j]);
            }
        }
    }
}

/// Updating the last entry of `name` to one more adds one to its count.
proof fn lemma_count_after_update(before: Seq<(String, u64)>, k: int, name: Seq<char>, after: Seq<(String, u64)>)
    requires
        0 <= k < before.len(),
        before[k].0@ == name,
        forall|j: int| k < j < before.len() ==> #[trigger] before[j].0@ != name,
        after.len() == before.len(),
        after[k].0@ == name,
        after[k].1 == before[k].1 + 1,
        forall|j: int| 0 <= j < before.len() && j != k ==> #[trigger] after[j] == before[j],
    ensures
        count_of(after, name) == count_of(before, name) + 1,
    decreases before.len(),
{
    if k < before.len() - 1 {
        assert(after.last() == before.last());
        lemma_count_after_update(before.drop_last(), k, name, after.drop_last());
    }
}

/// Settings of token validation with rotating keys.
#[derive(Debug, Clone)]
pub struct ValidationConfig {
    /// Whether tokens signed by expired keys are refused.
    pub strict_validation: bool,
    /// Clock skew allowed, in seconds.
    pub clock_skew_seconds: u64,
    /// Whether keys are cached.
    pub enable_key_cache: bool,
    /// How long a cached key lives, in seconds.
    pub cache_ttl_seconds: u64,
    /// Failures tolerated before an alert.
    pub max_validation_failures: usize,
    /// Window over which failures are counted, in seconds.
    pub failure_window_seconds: u64,
}

impl Default for ValidationConfig {
    fn default() -> (c: Self)
        ensures
            c.strict_validation,
            c.clock_skew_seconds == 30,
            c.enable_key_cache,
            c.cache_ttl_seconds == 300,
            c.max_validation_failures == 10,
            c.failure_window_seconds == 300,
    {
        ValidationConfig {
            strict_validation: true,
            clock_skew_seconds: 30,
            enable_key_cache: true,
            cache_ttl_seconds: 300,
            max_validation_failures: 10,
            failure_window_seconds: 300,
        }
    }
}

/// Why a validation failed.
#[derive(Debug, Clone, Copy, PartialEq, Eq, Structural)]
pub enum ValidationFailureReason {
    /// The token expired.
    TokenExpired,
    /// The key is unknown or inactive.
    KeyNotFound,
    /// The signature is wrong.
    InvalidSignature,
    /// The token is malformed.
    MalformedToken,
    /// The clocks disagree too much.
    ClockSkew,
    /// The key was revoked.
    KeyRevoked,
    /// Too many attempts.
    RateLimited,
}

} // verus!
