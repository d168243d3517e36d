use base64::Engine;
use toka::security::capability::Claims;
use toka::security::delegation::{DelegatedClaims, DelegationError, DelegationMetadata, DelegationRestrictions};
use toka::security::key_rotation::ValidationConfig;
use toka::security::rotating_validation::{
    cached_key_fresh, should_refresh_cache, unusually_large_token, whole_seconds_between, ValidationMetrics,
};
use toka::security::tokens::{
    check_token_claims, extract_subject_from_token, is_token_expired_at, split_on_dots, TokenCache, TokenConfig,
};

fn claims(sub: &str, exp: u64) -> DelegatedClaims {
    DelegatedClaims::new(Claims {
        sub: sub.to_string(),
        vault: "test_vault".to_string(),
        permissions: vec!["read".to_string()],
        iat: 0,
        exp,
        jti: "jti".to_string(),
    })
}

fn token_with(payload: &str) -> String {
    let body = base64::engine::general_purpose::STANDARD_NO_PAD.encode(payload.as_bytes());
    format!("eyJhbGciOiJIUzI1NiJ9.{}.c2ln", body)
}

#[test]
fn token_config_defaults() {
    let c = TokenConfig::default();
    assert_eq!(c.cache_size, 1000);
    assert_eq!(c.default_expiry, 3_600_000);
    assert!(c.enable_caching);
}

#[test]
fn token_payload_reading() {
    let token = token_with("{\"sub\":\"test_user\",\"exp\":4102444800}");
    assert_eq!(extract_subject_from_token(&token).unwrap(), "test_user");
    assert!(!is_token_expired_at(&token, 1_700_000_000).unwrap());
    assert!(is_token_expired_at(&token, 4_102_444_801).unwrap());
}

#[test]
fn token_payload_refusals() {
    match extract_subject_from_token("only.two") {
        Err(DelegationError::InvalidScope(m)) => assert_eq!(m, "Invalid JWT format"),
        other => panic!("unexpected {:?}", other),
    }
    match extract_subject_from_token("a.!!!.c") {
        Err(DelegationError::InvalidScope(m)) => assert!(m.starts_with("Failed to decode JWT payload: ")),
        other => panic!("unexpected {:?}", other),
    }
    match extract_subject_from_token(&token_with("not json")) {
        Err(DelegationError::InvalidScope(m)) => assert!(m.starts_with("Failed to parse JWT claims: ")),
        other => panic!("unexpected {:?}", other),
    }
    match extract_subject_from_token(&token_with("{\"exp\":1}")) {
        Err(DelegationError::InvalidScope(m)) => assert_eq!(m, "Missing sub claim"),
        other => panic!("unexpected {:?}", other),
    }
    match is_token_expired_at(&token_with("{\"sub\":\"x\"}"), 0) {
        Err(DelegationError::InvalidScope(m)) => assert_eq!(m, "Missing exp claim"),
        other => panic!("unexpected {:?}", other),
    }
}

#[test]
fn dots_split_every_part() {
    assert_eq!(split_on_dots("a.b.c"), vec!["a", "b", "c"]);
    assert_eq!(split_on_dots(""), vec![""]);
    assert_eq!(split_on_dots("..x"), vec!["", "", "x"]);
}

#[test]
fn claims_checks_before_trust() {
    assert!(check_token_claims(&claims("u", 100), 50, 50_000).is_ok());
    match check_token_claims(&claims("u", 100), 101, 101_000) {
        Err(DelegationError::DelegationExpired { expires_at }) => assert_eq!(expires_at, 100_000),
        other => panic!("unexpected {:?}", other),
    }
    let mut delegated = claims("u", 100);
    let mut metadata = DelegationMetadata::new(
        vec!["read".to_string()],
        "alice".to_string(),
        "bob".to_string(),
        DelegationRestrictions::default(),
    );
    metadata.revoke("compromised".to_string());
    delegated.delegation = Some(metadata);
    match check_token_claims(&delegated, 50, 50_000) {
        Err(DelegationError::DelegationRevoked { reason }) => assert_eq!(reason, "compromised"),
        other => panic!("unexpected {:?}", other),
    }
}

#[test]
fn token_cache_keeps_recent_tokens() {
    let mut cache = TokenCache::new(2);
    cache.insert_at("t1".to_string(), claims("a", 100), 0);
    cache.insert_at("t2".to_string(), claims("b", 100), 0);
    assert_eq!(cache.get_at("t1", 10).unwrap().base.sub, "a");
    cache.insert_at("t3".to_string(), claims("c", 100), 0);
    assert!(cache.get_at("t2", 10).is_none());
    assert!(cache.get_at("t1", 10).is_some());
    assert!(cache.get_at("t3", 10).is_some());
    let stats = cache.stats_at(10);
    assert_eq!(stats.total_entries, 2);
    assert_eq!(stats.active_entries, 2);
    assert_eq!(stats.max_size, 2);
}

#[test]
fn token_cache_drops_expired_tokens() {
    let mut cache = TokenCache::new(10);
    cache.insert_at("old".to_string(), claims("a", 5), 0);
    cache.insert_at("new".to_string(), claims("b", 500), 0);
    let stats = cache.stats_at(10);
    assert_eq!(stats.active_entries, 1);
    assert_eq!(stats.expired_entries, 1);
    cache.cleanup_at(10);
    assert_eq!(cache.stats_at(10).total_entries, 1);
    assert!(cache.get_at("new", 600).is_none());
    assert_eq!(cache.stats_at(600).total_entries, 0);
}

#[test]
fn validation_metrics_count_outcomes() {
    let mut m = ValidationMetrics::default();
    m.record_validation(true, 1_000);
    m.record_validation(false, 2_000);
    m.record_cache_hit();
    m.record_cache_miss();
    m.record_cache_miss();
    assert_eq!(m.total_validations, 2);
    assert_eq!(m.successful_validations, 1);
    assert_eq!(m.failed_validations, 1);
    assert_eq!(m.cache_hits, 1);
    assert_eq!(m.cache_misses, 2);
    assert_eq!(m.last_validation_time, Some(2_000));
}

#[test]
fn suspicious_alert_every_tolerated_failures() {
    let config = ValidationConfig::default();
    let mut m = ValidationMetrics::default();
    for i in 0..10 {
        m.record_validation(false, i);
    }
    assert!(m.record_suspicious(&config));
    m.record_validation(false, 11);
    assert!(!m.record_suspicious(&config));
    assert_eq!(m.suspicious_activities, 2);
}

#[test]
fn key_cache_refresh_and_freshness() {
    let config = ValidationConfig::default();
    assert_eq!(whole_seconds_between(0, 1_999), 1);
    assert_eq!(whole_seconds_between(1_999, 0), -1);
    assert!(should_refresh_cache(&config, None, 0));
    assert!(!should_refresh_cache(&config, Some(0), 300_999));
    assert!(should_refresh_cache(&config, Some(0), 301_000));
    assert!(cached_key_fresh(&config, 0, 300_999));
    assert!(!cached_key_fresh(&config, 0, 301_000));
    let mut off = ValidationConfig::default();
    off.enable_key_cache = false;
    assert!(!should_refresh_cache(&off, None, 0));
    assert!(!unusually_large_token(&"a".repeat(1000)));
    assert!(unusually_large_token(&"a".repeat(1001)));
}
