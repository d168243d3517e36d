use toka::domain::account::Account;
use toka::domain::pricing::{CreatorTier, CreditPackageTier, PayoutType};
use toka::embedder::{build_prompt, Llm, SmartEmbedder};
use toka::security::capability::{Claims, Error};
use toka::security::key_rotation::{
    generate_secure_key, AlertSeverity, AuditConfig, AuditEvent, AuditEventHandler, AuditStore, KeyVersion,
    RotationConfig,
};
use toka::security::key_rotation::{KeyStore, RotationEventHandler};
use toka::security::revocation::{MemoryStore, RevocationStore};
use toka::security::rotation_manager::{max_generation, needs_rotation, KeyRotationManager};
use toka::security::rate_limit::{
    AuthRateLimitContext, RateLimitError, RateLimitKey, RateLimitResponse, RateLimitResult, RateLimitUsage,
};

#[test]
fn test_rate_limit_key_generation() {
    let ip = "192.168.1.1".to_string();
    let context = AuthRateLimitContext::new()
        .with_ip(ip.clone())
        .with_user_id("user123".to_string())
        .with_endpoint("/api/login".to_string());
    let keys = context.generate_keys();
    assert!(keys.contains(&RateLimitKey::IpAddress(ip)));
    assert!(keys.contains(&RateLimitKey::UserId("user123".to_string())));
    assert!(keys.contains(&RateLimitKey::Endpoint("/api/login".to_string())));
}

#[test]
fn test_rate_limit_result() {
    let allowed = RateLimitResult::Allowed { remaining: 50, reset_after: 60_000, limit: 100 };
    assert!(allowed.is_allowed());
    assert_eq!(allowed.remaining(), Some(50));
    assert!(allowed.retry_after().is_none());

    let limited = RateLimitResult::Limited { retry_after: 30_000, limit: 100, current_usage: 100 };
    assert!(!limited.is_allowed());
    assert!(limited.remaining().is_none());
    assert_eq!(limited.retry_after(), Some(30_000));
}

#[test]
fn test_auth_failure_keys() {
    let context = AuthRateLimitContext::new()
        .with_ip("192.168.1.1".to_string())
        .with_user_id("user123".to_string())
        .with_endpoint("/api/login".to_string())
        .with_auth_failure();
    let keys = context.generate_keys();
    let has_auth_fail_composite = keys.iter().any(|k| {
        matches!(k, RateLimitKey::Composite(parts) if parts.iter().any(|p| p.contains("auth_fail")))
    });
    assert!(has_auth_fail_composite);
}

#[test]
fn storage_keys_name_their_dimension() {
    assert_eq!(RateLimitKey::IpAddress("10.0.0.1".to_string()).to_storage_key(), "ip:10.0.0.1");
    assert_eq!(RateLimitKey::UserId("u".to_string()).to_storage_key(), "user:u");
    assert_eq!(
        RateLimitKey::composite(vec!["a".to_string(), "b".to_string(), "c".to_string()]).to_storage_key(),
        "composite:a:b:c"
    );
}

#[test]
fn failed_login_keys_pair_address_and_user_with_endpoint() {
    let context = AuthRateLimitContext::new()
        .with_ip("1.2.3.4".to_string())
        .with_user_id("bob".to_string())
        .with_endpoint("/login".to_string())
        .with_auth_failure();
    let keys: Vec<String> = context.generate_keys().iter().map(|k| k.to_storage_key()).collect();
    assert_eq!(
        keys,
        vec![
            "ip:1.2.3.4".to_string(),
            "user:bob".to_string(),
            "endpoint:/login".to_string(),
            "composite:auth_fail_ip:1.2.3.4:endpoint:/login".to_string(),
            "composite:auth_fail_user:bob:endpoint:/login".to_string(),
        ]
    );
}

#[test]
fn test_rate_limit_response() {
    let response = RateLimitResponse::too_many_requests(
        30_000,
        100,
        vec![("X-RateLimit-Limit".to_string(), "100".to_string())],
    );
    assert_eq!(response.status, 429);
    assert!(!response.body.is_empty());
    assert_eq!(response.headers.len(), 1);
    assert_eq!(
        response.body,
        "{\"error\":\"Too Many Requests\",\"limit\":100,\"message\":\"Rate limit exceeded. Try again in 30 seconds.\",\"retry_after\":30}"
    );
}

#[test]
fn rate_limit_error_texts() {
    assert_eq!(RateLimitError::InvalidConfig("x".to_string()).to_text(), "Invalid configuration: x");
    assert_eq!(RateLimitError::Storage("down".to_string()).to_text(), "Storage backend error: down");
}

#[test]
fn usage_windows() {
    let mut usage = RateLimitUsage::new(3, 1000);
    assert!(usage.is_within_window_at(500, 1400));
    assert!(!usage.is_within_window_at(500, 1600));
    usage.increment(2);
    assert_eq!(usage.count, 5);
    assert_eq!(usage.total_requests, 5);
    usage.reset_window(2000);
    assert_eq!(usage.count, 0);
    assert_eq!(usage.total_requests, 5);
    assert_eq!(usage.window_start, 2000);
}

#[test]
fn test_key_version_creation() {
    let config = RotationConfig::default();
    let key = KeyVersion::new(1, config.rotation_interval, config.overlap_period).unwrap();
    assert_eq!(key.generation, 1);
    assert!(key.is_active);
    assert!(key.is_active_for_signing());
    assert!(key.is_valid_for_validation());
    assert_eq!(key.key_material.len(), 64);
}

#[test]
fn test_key_expiry() {
    let past_time: i64 = 1_000_000_000_000;
    let key = KeyVersion {
        id: 1,
        key_material: generate_secure_key().unwrap(),
        created_at: past_time,
        expires_at: past_time + 24 * 3_600_000,
        valid_until: past_time + 25 * 3_600_000,
        is_active: true,
        generation: 1,
    };
    assert!(!key.is_active_for_signing());
    assert!(!key.is_valid_for_validation());
}

#[test]
fn test_secure_key_generation() {
    let key1 = generate_secure_key().unwrap();
    let key2 = generate_secure_key().unwrap();
    assert_ne!(key1, key2);
    assert_eq!(key1.len(), 64);
    assert_eq!(key2.len(), 64);
}

#[test]
fn key_bytes_decode_the_material() {
    let key = KeyVersion {
        id: 1,
        key_material: "00ff10".to_string(),
        created_at: 0,
        expires_at: 10,
        valid_until: 20,
        is_active: true,
        generation: 1,
    };
    assert_eq!(key.key_bytes().unwrap(), vec![0x00, 0xff, 0x10]);
    assert!(key.is_active_for_signing_at(5));
    assert!(!key.is_active_for_signing_at(10));
    assert!(key.is_valid_for_validation_at(19));
    let bad = KeyVersion { key_material: "xyz".to_string(), ..key };
    assert!(bad.key_bytes().unwrap_err().starts_with("Failed to decode key material: "));
}

#[derive(Default)]
struct CountingStore {
    kept: usize,
    fail: bool,
}

impl AuditStore for CountingStore {
    fn store_event(&mut self, _event: &AuditEvent) -> Result<(), String> {
        if self.fail {
            return Err("disk full".to_string());
        }
        self.kept += 1;
        Ok(())
    }
    fn query_events(&self, _start: i64, _end: i64, _types: Option<Vec<String>>) -> Result<Vec<AuditEvent>, String> {
        Ok(Vec::new())
    }
    fn get_alerts(&self, _min: AlertSeverity) -> Result<Vec<AuditEvent>, String> {
        Ok(Vec::new())
    }
    fn archive_events(&mut self, _before: i64) -> Result<usize, String> {
        Ok(0)
    }
}

#[test]
fn test_audit_event_handler() {
    let mut handler = AuditEventHandler::new(CountingStore::default(), AuditConfig::default());
    handler
        .log_security_alert(
            toka::security::key_rotation::SecurityAlertType::RepeatedFailures,
            "Multiple failed attempts".to_string(),
            AlertSeverity::High,
            "{}".to_string(),
        )
        .unwrap();
    let metrics = handler.get_metrics();
    assert_eq!(metrics.total_events, 1);
    assert_eq!(metrics.alerts_generated, 1);
    assert_eq!(metrics.events_by_type, vec![("security_alert".to_string(), 1)]);
}

#[test]
fn test_key_validation_logging() {
    let mut handler = AuditEventHandler::new(CountingStore { kept: 0, fail: true }, AuditConfig::default());
    assert!(handler.log_key_validation(7, true, None).is_err());
    let metrics = handler.get_metrics();
    assert_eq!(metrics.total_events, 1);
    assert_eq!(metrics.storage_errors, 1);
    assert_eq!(metrics.alerts_generated, 0);
}

#[test]
fn severities_are_ranked() {
    assert!(AlertSeverity::Critical.at_least(AlertSeverity::High));
    assert!(!AlertSeverity::Low.at_least(AlertSeverity::Medium));
    assert_eq!(AlertSeverity::Medium.to_text(), "MEDIUM");
}

#[test]
fn capability_error_keeps_its_message() {
    let e = Error::new("bad token");
    assert_eq!(e.to_text(), "bad token");
    let c = Claims {
        sub: "s".to_string(),
        vault: "v".to_string(),
        permissions: vec!["read".to_string()],
        iat: 1,
        exp: 2,
        jti: "j".to_string(),
    };
    let d = c.duplicate();
    assert_eq!(d.permissions, c.permissions);
    assert_eq!(d.jti, c.jti);
}

struct EchoModel;

impl Llm for EchoModel {
    fn complete(&self, prompt: &str) -> Result<String, String> {
        Ok(prompt.len().to_string())
    }
}

#[test]
fn prompt_asks_for_a_one_sentence_summary() {
    let p = build_prompt("login", "{\"user\":1}");
    assert_eq!(
        p,
        "You are an event summariser agent. Summarise the following login event in one short sentence:\n\nEvent Payload (JSON):\n{\"user\":1}\n\nSummary:"
    );
    let embedder = SmartEmbedder::new(EchoModel, ());
    assert_eq!(embedder.summarise("login", "{\"user\":1}"), Ok(p.len().to_string()));
}

#[test]
fn accounts_and_pricing_kinds() {
    let a = Account::new("alice".to_string());
    assert_eq!(a.balance, 0);
    let b = Account::new_with_balance("bob".to_string(), 40);
    assert_eq!(b.balance, 40);
    assert_ne!(CreditPackageTier::Starter, CreditPackageTier::Custom("x".to_string()));
    assert_eq!(CreatorTier::Custom("y".to_string()), CreatorTier::Custom("y".to_string()));
    assert_ne!(PayoutType::PayPal, PayoutType::Venmo);
}

#[derive(Default)]
struct MockKeyStore {
    keys: Vec<toka::security::key_rotation::KeyVersion>,
}

impl toka::security::key_rotation::KeyStore for MockKeyStore {
    fn store_key(&mut self, key: &toka::security::key_rotation::KeyVersion) -> Result<(), String> {
        self.keys.retain(|k| k.id != key.id);
        self.keys.push(key.clone());
        Ok(())
    }
    fn get_key(&self, key_id: u128) -> Result<Option<toka::security::key_rotation::KeyVersion>, String> {
        Ok(self.keys.iter().find(|k| k.id == key_id).cloned())
    }
    fn get_active_key(&self) -> Result<Option<toka::security::key_rotation::KeyVersion>, String> {
        Ok(self.keys.iter().find(|k| k.is_active).cloned())
    }
    fn get_valid_keys(&self) -> Result<Vec<toka::security::key_rotation::KeyVersion>, String> {
        Ok(self.keys.iter().filter(|k| k.is_valid_for_validation()).cloned().collect())
    }
    fn deactivate_key(&mut self, key_id: u128) -> Result<(), String> {
        for k in self.keys.iter_mut() {
            if k.id == key_id {
                k.is_active = false;
            }
        }
        Ok(())
    }
    fn cleanup_expired_keys(&mut self) -> Result<usize, String> {
        let before = self.keys.len();
        self.keys.retain(|k| k.is_valid_for_validation());
        Ok(before - self.keys.len())
    }
    fn get_all_keys(&self) -> Result<Vec<toka::security::key_rotation::KeyVersion>, String> {
        Ok(self.keys.clone())
    }
}

#[derive(Default)]
struct MockEventHandler {
    events: Vec<String>,
}

impl RotationEventHandler for MockEventHandler {
    fn on_key_generated(&mut self, key: &toka::security::key_rotation::KeyVersion) -> Result<(), String> {
        self.events.push(format!("generated:{}", key.generation));
        Ok(())
    }
    fn on_key_rotated(
        &mut self,
        old_key: &toka::security::key_rotation::KeyVersion,
        new_key: &toka::security::key_rotation::KeyVersion,
    ) -> Result<(), String> {
        self.events.push(format!("rotated:{}:{}", old_key.generation, new_key.generation));
        Ok(())
    }
    fn on_keys_cleaned_up(&mut self, count: usize) -> Result<(), String> {
        self.events.push(format!("cleanup:{}", count));
        Ok(())
    }
    fn on_rotation_failed(&mut self, _error: &str) -> Result<(), String> {
        self.events.push("failed".to_string());
        Ok(())
    }
}

#[test]
fn test_manager_initialization() {
    let mut manager =
        KeyRotationManager::new(MockKeyStore::default(), MockEventHandler::default(), RotationConfig::default());
    manager.initialize().unwrap();
    let active_key = manager.store().get_active_key().unwrap();
    assert!(active_key.is_some());
    assert!(manager.event_handler().events.contains(&"generated:1".to_string()));
    assert!(manager.is_automatic());
}

#[test]
fn test_manual_rotation() {
    let mut manager =
        KeyRotationManager::new(MockKeyStore::default(), MockEventHandler::default(), RotationConfig::default());
    manager.initialize().unwrap();
    let new_key = manager.rotate_key().unwrap();
    assert_eq!(new_key.generation, 2);
    let events = &manager.event_handler().events;
    assert!(events.contains(&"generated:1".to_string()));
    assert!(events.contains(&"generated:2".to_string()));
    assert!(events.contains(&"rotated:1:2".to_string()));
    let stats = manager.get_rotation_stats().unwrap();
    assert_eq!(stats.total_keys, 2);
    assert_eq!(stats.current_generation, 2);
    assert_eq!(stats.active_key_id, Some(new_key.id));
    assert_eq!(stats.next_rotation, Some(new_key.expires_at));
}

#[test]
fn rotation_is_due_near_expiry() {
    assert!(needs_rotation(&None, 0, 1_000));
    let key = KeyVersion::new(3, 1_000, 100).unwrap();
    let now = key.created_at;
    assert!(!needs_rotation(&Some(key.clone()), now, 1_000));
    assert!(needs_rotation(&Some(key.clone()), now + 900, 1_000));
    assert!(!needs_rotation(&Some(key.clone()), now + 899, 1_000));
    let older = KeyVersion::new(7, 1_000, 100).unwrap();
    assert_eq!(max_generation(&vec![key, older]), 7);
    assert_eq!(max_generation(&vec![]), 0);
}

#[test]
fn rotation_tick_rotates_when_due() {
    let mut manager =
        KeyRotationManager::new(MockKeyStore::default(), MockEventHandler::default(), RotationConfig::default());
    manager.initialize().unwrap();
    let first = manager.store().get_active_key().unwrap().unwrap();
    assert!(!manager.rotation_tick_at(first.created_at));
    assert!(manager.rotation_tick_at(first.expires_at));
    let active = manager.store().get_active_key().unwrap().unwrap();
    assert_eq!(active.generation, 2);
    assert!(manager.event_handler().events.contains(&"rotated:1:2".to_string()));
}

#[test]
fn memory_store_roundtrip() {
    let mut store = MemoryStore::new();
    let jti: u128 = 0x1234_5678_9abc_def0_1122_3344_5566_7788;
    let exp = toka::support::now_millis() + 5 * 60 * 1000;
    assert!(!store.is_revoked(jti).unwrap());
    store.revoke(jti, exp).unwrap();
    assert!(store.is_revoked(jti).unwrap());
}

#[test]
fn revocation_ends_at_expiry() {
    let mut store = MemoryStore::new();
    store.revoke(7, 1_000).unwrap();
    assert!(store.is_revoked_at(7, 999));
    assert!(!store.is_revoked_at(7, 1_000));
    assert!(!store.is_revoked_at(8, 0));
    store.revoke(7, 5_000).unwrap();
    assert!(store.is_revoked_at(7, 4_000));
}

#[derive(Default)]
struct RecordingStore {
    events: Vec<AuditEvent>,
}

impl AuditStore for RecordingStore {
    fn store_event(&mut self, event: &AuditEvent) -> Result<(), String> {
        self.events.push(event.clone());
        Ok(())
    }
    fn query_events(&self, _start: i64, _end: i64, _types: Option<Vec<String>>) -> Result<Vec<AuditEvent>, String> {
        Ok(self.events.clone())
    }
    fn get_alerts(&self, _min: AlertSeverity) -> Result<Vec<AuditEvent>, String> {
        Ok(Vec::new())
    }
    fn archive_events(&mut self, _before: i64) -> Result<usize, String> {
        Ok(0)
    }
}

#[test]
fn audit_handler_hands_rotation_events_to_its_store() {
    let mut handler = AuditEventHandler::new(RecordingStore::default(), AuditConfig::default());
    let key = KeyVersion {
        id: 5,
        key_material: "00".to_string(),
        created_at: 10,
        expires_at: 20,
        valid_until: 30,
        is_active: true,
        generation: 2,
    };
    handler.on_key_generated(&key).unwrap();
    handler.on_keys_cleaned_up(3).unwrap();
    handler.on_rotation_failed("boom \"x\"").unwrap();
    let events = handler.store().query_events(0, 0, None).unwrap();
    assert_eq!(events.len(), 4);
    assert!(matches!(events[0], AuditEvent::KeyGenerated { key_id: 5, generation: 2, created_at: 10, expires_at: 20 }));
    assert!(matches!(events[1], AuditEvent::KeysCleanedUp { count: 3, .. }));
    assert!(matches!(&events[2], AuditEvent::RotationFailed { error_message, .. } if error_message == "boom \"x\""));
    match &events[3] {
        AuditEvent::SecurityAlert { description, metadata, .. } => {
            assert_eq!(description, "Key rotation failed: boom \"x\"");
            assert_eq!(metadata, "{\"component\":\"key_rotation\",\"error\":\"boom \\\"x\\\"\"}");
        }
        _ => panic!("expected an alert"),
    }
    let metrics = handler.get_metrics();
    assert_eq!(metrics.total_events, 4);
    assert_eq!(metrics.alerts_generated, 1);
}
