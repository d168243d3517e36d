use toka::security::capability::TokenValidator;
use toka::security::jwt::{validate_hs256, JwtValidator};
use toka::security::key_rotation::KeyVersion;
use toka::security::rotating_validation::validate_with_keys;
use toka::security::tokens::{create_simple_delegated_token_at, JwtDelegatedTokenGenerator, TokenConfig};

const NOW: u64 = 1_700_000_000;

fn token(secret: &[u8], lasting: u64) -> String {
    create_simple_delegated_token_at(
        "alice",
        "vault1",
        vec!["read".to_string(), "write".to_string()],
        lasting,
        secret,
        NOW,
        (NOW as i64) * 1000,
        "jti-1".to_string(),
    )
    .unwrap()
}

fn key(hex_material: &str) -> KeyVersion {
    KeyVersion {
        id: 7,
        key_material: hex_material.to_string(),
        created_at: 0,
        expires_at: i64::MAX,
        valid_until: i64::MAX,
        is_active: true,
        generation: 1,
    }
}

#[test]
fn signed_token_validates_with_its_secret() {
    let t = token(b"shared-secret", 3600);
    assert_eq!(t.split('.').count(), 3);
    let v = JwtValidator::new("shared-secret");
    let c = v.validate_at(&t, NOW + 10).unwrap();
    assert_eq!(c.sub, "alice");
    assert_eq!(c.vault, "vault1");
    assert_eq!(c.permissions, vec!["read".to_string(), "write".to_string()]);
    assert_eq!(c.iat, NOW);
    assert_eq!(c.exp, NOW + 3600);
    assert_eq!(c.jti, "jti-1");
}

#[test]
fn wrong_secret_and_expiry_are_refused() {
    let t = token(b"shared-secret", 100);
    assert!(JwtValidator::new("other-secret").validate_at(&t, NOW).is_err());
    // one minute of clock skew is allowed
    assert!(validate_hs256(&t, b"shared-secret", 60, NOW + 160).is_ok());
    let late = validate_hs256(&t, b"shared-secret", 60, NOW + 161).unwrap_err();
    assert_eq!(late.to_text(), "ExpiredSignature");
    assert!(JwtValidator::new("shared-secret").validate("not.a.token").is_err());
}

#[test]
fn rotating_keys_are_tried_in_turn() {
    let t = token(b"abc", 3600);
    let wrong = key(&hex::encode(b"zzz"));
    let right = key(&hex::encode(b"abc"));
    let c = validate_with_keys(&t, &vec![wrong.clone(), right], 60, NOW).unwrap();
    assert_eq!(c.sub, "alice");
    assert_eq!(
        validate_with_keys(&t, &vec![], 60, NOW).unwrap_err().to_text(),
        "No valid keys available for validation"
    );
    assert_eq!(
        validate_with_keys(&t, &vec![wrong], 60, NOW).unwrap_err().to_text(),
        "Token validation failed with all available keys"
    );
    let bad = key("not hex");
    assert!(validate_with_keys(&t, &vec![bad], 60, NOW).unwrap_err().to_text().starts_with("Failed to get key bytes: "));
}

#[test]
fn delegated_tokens_round_trip_through_the_generator() {
    let mut g = JwtDelegatedTokenGenerator::new(TokenConfig::default());
    let t = token(b"k3y", 3600);
    let parsed = g.parse_delegated_token_at(&t, b"k3y", NOW, (NOW as i64) * 1000).unwrap();
    assert_eq!(parsed.base.sub, "alice");
    assert!(parsed.delegation.is_none());
    // now cached: a second read comes from the cache
    let again = g.parse_delegated_token_at(&t, b"anything", NOW, (NOW as i64) * 1000).unwrap();
    assert_eq!(again.base.jti, "jti-1");
    let mut fresh = JwtDelegatedTokenGenerator::new(TokenConfig::default());
    assert!(fresh.parse_delegated_token_at(&t, &[0xff, 0xfe], NOW, 0).is_err());
    let made = fresh.create_delegated_token_at(&parsed, b"k3y", 0).unwrap();
    assert_eq!(made, t);
}
