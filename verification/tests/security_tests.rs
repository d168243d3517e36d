use toka::security::capability::Claims;
use toka::security::delegation::{
    DelegatedClaims, DelegationError, DelegationMetadata, DelegationRestrictions, PermissionHierarchy, TimeRestrictions,
    TimeWindow,
};
use toka::security::hierarchy::SimplePermissionHierarchy;
use toka::security::manager::SimpleDelegationManager;
use toka::security::validation::{DelegationValidator, ValidationResult};

fn claims(sub: &str, permissions: &[&str], exp: u64) -> Claims {
    Claims {
        sub: sub.to_string(),
        vault: "vault1".to_string(),
        permissions: permissions.iter().map(|p| p.to_string()).collect(),
        iat: 1640995200,
        exp,
        jti: "token-1".to_string(),
    }
}

#[test]
fn test_delegated_claims_creation() {
    let base_claims = Claims {
        sub: "user123".to_string(),
        vault: "vault1".to_string(),
        permissions: vec!["read".to_string(), "write".to_string()],
        iat: 1640995200,
        exp: 1640998800,
        jti: "c1b0a7d2-0000-4000-8000-000000000000".to_string(),
    };
    let expected = base_claims.permissions.clone();
    let delegated_claims = DelegatedClaims::new(base_claims);
    assert!(!delegated_claims.is_delegated());
    assert_eq!(delegated_claims.delegation_depth(), 0);
    assert_eq!(delegated_claims.effective_permissions(), expected);
}

#[test]
fn test_delegation_metadata() {
    let mut metadata = DelegationMetadata::new(
        vec!["read".to_string()],
        "delegator1".to_string(),
        "delegatee1".to_string(),
        DelegationRestrictions::default(),
    );
    assert!(metadata.is_valid());
    assert_eq!(metadata.chain.len(), 1);

    let result = metadata.extend_chain("delegatee1".to_string(), "delegatee2".to_string(), vec!["read".to_string()]);
    assert!(result.is_ok());
    assert_eq!(metadata.chain.len(), 2);

    metadata.revoke("Test revocation".to_string());
    assert!(!metadata.is_valid());
    assert_eq!(metadata.revocation_reason, Some("Test revocation".to_string()));
}

#[test]
fn test_circular_delegation_prevention() {
    let mut metadata = DelegationMetadata::new(
        vec!["read".to_string()],
        "user1".to_string(),
        "user2".to_string(),
        DelegationRestrictions::default(),
    );
    let result = metadata.extend_chain("user2".to_string(), "user1".to_string(), vec!["read".to_string()]);
    assert!(matches!(result, Err(DelegationError::CircularDelegation)));
}

#[test]
fn test_permission_subset_enforcement() {
    let mut metadata = DelegationMetadata::new(
        vec!["read".to_string()],
        "user1".to_string(),
        "user2".to_string(),
        DelegationRestrictions::default(),
    );
    let result = metadata.extend_chain(
        "user2".to_string(),
        "user3".to_string(),
        vec!["read".to_string(), "write".to_string()],
    );
    assert!(matches!(result, Err(DelegationError::InsufficientPermissions(_))));
}

#[test]
fn test_delegation_depth_limit() {
    let mut metadata = DelegationMetadata::new(
        vec!["read".to_string()],
        "user1".to_string(),
        "user2".to_string(),
        DelegationRestrictions { max_delegation_depth: 2, ..Default::default() },
    );
    assert!(metadata.extend_chain("user2".to_string(), "user3".to_string(), vec!["read".to_string()]).is_ok());
    let result = metadata.extend_chain("user3".to_string(), "user4".to_string(), vec!["read".to_string()]);
    assert!(matches!(result, Err(DelegationError::DelegationDepthExceeded { .. })));
}

#[test]
fn effective_permissions_are_the_intersection() {
    let base = claims("alice", &["read", "write", "read"], 10);
    let metadata = DelegationMetadata::new(
        vec!["read".to_string(), "admin".to_string()],
        "root".to_string(),
        "alice".to_string(),
        DelegationRestrictions::default(),
    );
    let c = DelegatedClaims::with_delegation(base, metadata);
    assert_eq!(c.effective_permissions(), vec!["read".to_string()]);
    assert!(c.has_permission("read"));
    assert!(!c.has_permission("write"));
    assert!(!c.has_permission("admin"));
}

#[test]
fn test_simple_delegation() {
    let mut manager = SimpleDelegationManager::new();
    let delegator = DelegatedClaims::new(claims("alice", &["read", "write"], 1640998800));
    let result =
        manager.create_delegation(&delegator, "bob", vec!["read".to_string()], DelegationRestrictions::default(), None);
    assert!(result.is_ok());
    let delegated_claims = result.unwrap();
    assert!(delegated_claims.is_delegated());
    assert_eq!(delegated_claims.base.sub, "bob");
    assert!(delegated_claims.has_permission("read"));
    assert!(!delegated_claims.has_permission("write"));
}

#[test]
fn test_delegation_validation() {
    let mut manager = SimpleDelegationManager::new();
    let delegator = DelegatedClaims::new(claims("alice", &["read"], 1640998800));
    let delegated_claims = manager
        .create_delegation(&delegator, "bob", vec!["read".to_string()], DelegationRestrictions::default(), None)
        .unwrap();
    let is_valid = manager.validate_delegation(&delegated_claims).unwrap();
    assert!(is_valid);

    let delegation_id = delegated_claims.delegation.as_ref().unwrap().delegation_id;
    manager.revoke_delegation(delegation_id, "Test revocation".to_string()).unwrap();

    let result = manager.validate_delegation(&delegated_claims);
    assert!(matches!(result, Err(DelegationError::DelegationRevoked { .. })));
}

#[test]
fn test_insufficient_permissions() {
    let mut manager = SimpleDelegationManager::new();
    let delegator = DelegatedClaims::new(claims("alice", &["read"], 1640998800));
    let result =
        manager.create_delegation(&delegator, "bob", vec!["write".to_string()], DelegationRestrictions::default(), None);
    assert!(matches!(result, Err(DelegationError::InsufficientPermissions(_))));
}

#[test]
fn test_delegation_chain() {
    let mut manager = SimpleDelegationManager::new();
    let alice = DelegatedClaims::new(claims("alice", &["read", "write"], 1640998800));
    let bob_claims = manager
        .create_delegation(&alice, "bob", vec!["read".to_string()], DelegationRestrictions::default(), None)
        .unwrap();
    let charlie_claims = manager
        .create_delegation(&bob_claims, "charlie", vec!["read".to_string()], DelegationRestrictions::default(), None)
        .unwrap();
    assert_eq!(charlie_claims.delegation_depth(), 2);
    assert_eq!(charlie_claims.original_delegator(), Some(&"alice".to_string()));
    assert_eq!(charlie_claims.immediate_delegator(), Some(&"bob".to_string()));
}

#[test]
fn test_stats_collection() {
    let mut manager = SimpleDelegationManager::new();
    let delegator = DelegatedClaims::new(claims("alice", &["read"], 1640998800));
    let delegated_claims = manager
        .create_delegation(&delegator, "bob", vec!["read".to_string()], DelegationRestrictions::default(), None)
        .unwrap();
    let stats = manager.get_stats();
    assert_eq!(stats.total_delegations, 1);
    assert_eq!(stats.active_delegations, 1);
    assert_eq!(stats.revoked_delegations, 0);

    let delegation_id = delegated_claims.delegation.as_ref().unwrap().delegation_id;
    manager.revoke_delegation(delegation_id, "Test".to_string()).unwrap();

    let stats = manager.get_stats();
    assert_eq!(stats.total_delegations, 1);
    assert_eq!(stats.active_delegations, 0);
    assert_eq!(stats.revoked_delegations, 1);
}

#[test]
fn unknown_delegation_cannot_be_revoked() {
    let mut manager = SimpleDelegationManager::new();
    let result = manager.revoke_delegation(1, "why".to_string());
    match result {
        Err(DelegationError::InvalidChain(m)) => {
            assert_eq!(m, "Delegation not found: 00000000-0000-0000-0000-000000000001")
        },
        _ => panic!("expected a missing delegation"),
    }
}

#[test]
fn expired_delegations_are_cleaned_up() {
    let mut manager = SimpleDelegationManager::new();
    let delegator = DelegatedClaims::new(claims("alice", &["read"], 1640998800));
    manager
        .create_delegation(&delegator, "bob", vec!["read".to_string()], DelegationRestrictions::default(), Some(1000))
        .unwrap();
    assert_eq!(manager.cleanup_expired_at(500), Ok(0));
    assert_eq!(manager.cleanup_expired_at(2000), Ok(1));
    assert_eq!(manager.get_stats_at(2000).total_delegations, 0);
}

#[test]
fn test_basic_hierarchy() {
    let mut hierarchy = SimplePermissionHierarchy::new();
    hierarchy.add_implication("admin", "write").unwrap();
    hierarchy.add_implication("admin", "read").unwrap();
    hierarchy.add_implication("write", "read").unwrap();

    assert!(hierarchy.implies("admin", "write").unwrap());
    assert!(hierarchy.implies("admin", "read").unwrap());
    assert!(hierarchy.implies("write", "read").unwrap());
    assert!(!hierarchy.implies("read", "write").unwrap());
    assert!(!hierarchy.implies("write", "admin").unwrap());
}

#[test]
fn test_cycle_detection() {
    let mut hierarchy = SimplePermissionHierarchy::new();
    hierarchy.add_implication("admin", "write").unwrap();
    hierarchy.add_implication("write", "read").unwrap();
    let result = hierarchy.add_implication("read", "admin");
    assert_eq!(result, Err("Adding implication read -> admin would create a cycle".to_string()));
}

#[test]
fn test_remove_implication() {
    let mut hierarchy = SimplePermissionHierarchy::new();
    hierarchy.add_implication("admin", "write").unwrap();
    hierarchy.add_implication("admin", "read").unwrap();
    assert!(hierarchy.implies("admin", "write").unwrap());
    hierarchy.remove_implication("admin", "write").unwrap();
    assert!(!hierarchy.implies("admin", "write").unwrap());
    assert!(hierarchy.implies("admin", "read").unwrap());
}

#[test]
fn test_get_hierarchy() {
    let mut hierarchy = SimplePermissionHierarchy::new();
    hierarchy.add_implication("admin", "write").unwrap();
    hierarchy.add_implication("admin", "read").unwrap();
    hierarchy.add_implication("write", "read").unwrap();
    let graph = hierarchy.get_hierarchy().unwrap();
    let children = |name: &str| graph.iter().find(|(p, _)| p == name).map(|(_, c)| c.len());
    assert_eq!(children("admin"), Some(2));
    assert_eq!(children("write"), Some(1));
    assert_eq!(children("read"), None);
}

#[test]
fn test_stats() {
    let mut hierarchy = SimplePermissionHierarchy::new();
    hierarchy.add_implication("admin", "write").unwrap();
    hierarchy.add_implication("admin", "read").unwrap();
    hierarchy.add_implication("write", "read").unwrap();
    let stats = hierarchy.get_stats();
    assert_eq!(stats.total_permissions, 2);
    assert_eq!(stats.total_relationships, 3);
    assert_eq!(stats.max_depth, 2);
    assert_eq!(stats.leaf_permissions, 1);
}

#[test]
fn implied_permissions_are_transitive_and_distinct() {
    let mut hierarchy = SimplePermissionHierarchy::new();
    hierarchy.add_implication("a", "b").unwrap();
    hierarchy.add_implication("b", "c").unwrap();
    hierarchy.add_implication("a", "c").unwrap();
    let mut implied = hierarchy.get_implied_permissions("a").unwrap();
    implied.sort();
    assert_eq!(implied, vec!["b".to_string(), "c".to_string()]);
    assert!(hierarchy.get_implied_permissions("c").unwrap().is_empty());
}

fn validator() -> DelegationValidator<SimplePermissionHierarchy> {
    DelegationValidator::with_hierarchy(SimplePermissionHierarchy::new())
}

#[test]
fn test_basic_validation() {
    let v = validator();
    let now: i64 = 1_700_000_000_000;
    let c = DelegatedClaims::new(claims("test_user", &["read"], (now / 1000) as u64 + 3600));
    let result = v.validate_complete_at(&c, now).unwrap();
    assert!(result.is_valid());
    assert_eq!(result.passed_checks(), result.checks.len());
    assert_eq!(result.checks.len(), 1);
}

#[test]
fn test_expired_token_validation() {
    let v = validator();
    let now: i64 = 1_700_000_000_000;
    let c = DelegatedClaims::new(claims("test_user", &["read"], (now / 1000) as u64 - 3600));
    let result = v.validate_complete_at(&c, now);
    assert!(matches!(result, Err(DelegationError::DelegationExpired { .. })));
}

#[test]
fn test_time_window_validation() {
    let v = validator();
    let window = TimeWindow { start_time: "09:30".to_string(), end_time: "10:30".to_string() };
    let ten_o_clock: u32 = 10 * 3_600_000;
    assert!(v.is_time_in_window(ten_o_clock, &window).unwrap());
}

#[test]
fn test_overnight_time_window() {
    let v = validator();
    let window = TimeWindow { start_time: "22:00".to_string(), end_time: "06:00".to_string() };
    let night_time: u32 = (23 * 60 + 30) * 60_000;
    let early_morning: u32 = (5 * 60 + 30) * 60_000;
    let day_time: u32 = 12 * 3_600_000;
    assert!(v.is_time_in_window(night_time, &window).unwrap());
    assert!(v.is_time_in_window(early_morning, &window).unwrap());
    assert!(!v.is_time_in_window(day_time, &window).unwrap());
}

#[test]
fn malformed_window_is_out_of_scope() {
    let v = validator();
    let window = TimeWindow { start_time: "nine".to_string(), end_time: "06:00".to_string() };
    match v.is_time_in_window(0, &window) {
        Err(DelegationError::InvalidScope(m)) => assert!(m.starts_with("Invalid start time format: ")),
        _ => panic!("expected a scope error"),
    }
}

#[test]
fn test_validation_score() {
    let mut result = ValidationResult::new();
    result.add_check("test1", true);
    result.add_check("test2", true);
    result.add_check("test3", false);
    assert_eq!(result.passed_checks(), 2);
    assert_eq!(result.checks.len(), 3);
}

#[test]
fn broken_chain_is_reported_with_its_links() {
    let v = validator();
    let now: i64 = 1_700_000_000_000;
    let mut metadata = DelegationMetadata::new(
        vec!["read".to_string()],
        "alice".to_string(),
        "bob".to_string(),
        DelegationRestrictions::default(),
    );
    metadata.chain.push(toka::security::delegation::DelegationEntry {
        delegator: "carol".to_string(),
        delegatee: "dave".to_string(),
        delegated_at: 0,
        delegation_id: 5,
    });
    let c = DelegatedClaims::with_delegation(claims("dave", &["read"], (now / 1000) as u64 + 60), metadata);
    match v.validate_complete_at(&c, now) {
        Err(DelegationError::InvalidChain(m)) => {
            assert_eq!(m, "Delegation chain break: alice -> bob != carol -> dave")
        },
        other => panic!("unexpected: {:?}", other),
    }
}

#[test]
fn delegated_permissions_beyond_the_token_are_refused() {
    let v = validator();
    let now: i64 = 1_700_000_000_000;
    let metadata = DelegationMetadata::new(
        vec!["write".to_string()],
        "alice".to_string(),
        "bob".to_string(),
        DelegationRestrictions::default(),
    );
    let c = DelegatedClaims::with_delegation(claims("bob", &["read"], (now / 1000) as u64 + 60), metadata);
    match v.validate_complete_at(&c, now) {
        Err(DelegationError::InsufficientPermissions(m)) => {
            assert_eq!(m, "Delegated permissions not subset of base permissions: [\"write\"]")
        },
        other => panic!("unexpected: {:?}", other),
    }
}

#[test]
fn day_restriction_names_the_day() {
    let v = validator();
    // 2023-11-14T22:13:20Z, a Tuesday.
    let now: i64 = 1_700_000_000_000;
    let restrictions = DelegationRestrictions {
        time_restrictions: Some(TimeRestrictions {
            allowed_time_windows: vec![],
            timezone: "UTC".to_string(),
            allowed_days: vec![1, 3],
        }),
        ..Default::default()
    };
    let metadata =
        DelegationMetadata::new(vec!["read".to_string()], "alice".to_string(), "bob".to_string(), restrictions);
    let c = DelegatedClaims::with_delegation(claims("bob", &["read"], (now / 1000) as u64 + 60), metadata);
    match v.validate_complete_at(&c, now) {
        Err(DelegationError::InvalidScope(m)) => assert_eq!(m, "Current day 2 not in allowed days: [1, 3]"),
        other => panic!("unexpected: {:?}", other),
    }
}

#[test]
fn valid_delegation_passes_every_check() {
    let v = validator();
    let now: i64 = 1_700_000_000_000;
    let metadata = DelegationMetadata::new(
        vec!["read".to_string()],
        "alice".to_string(),
        "bob".to_string(),
        DelegationRestrictions::default(),
    );
    let c = DelegatedClaims::with_delegation(claims("bob", &["read", "write"], (now / 1000) as u64 + 60), metadata);
    let result = v.validate_complete_at(&c, now).unwrap();
    let names: Vec<&str> = result.checks.iter().map(|(n, _)| n.as_str()).collect();
    assert_eq!(
        names,
        vec![
            "token_expiry",
            "delegation_metadata",
            "delegation_chain",
            "permission_subset",
            "time_restrictions",
            "depth_limits"
        ]
    );
}

#[test]
fn delegations_are_listed_by_delegatee_in_order() {
    let mut manager = SimpleDelegationManager::new();
    let delegator = DelegatedClaims::new(claims("alice", &["read", "write"], 1640998800));
    manager
        .create_delegation(&delegator, "bob", vec!["read".to_string()], DelegationRestrictions::default(), None)
        .unwrap();
    manager
        .create_delegation(&delegator, "carol", vec!["read".to_string()], DelegationRestrictions::default(), None)
        .unwrap();
    manager
        .create_delegation(&delegator, "bob", vec!["write".to_string()], DelegationRestrictions::default(), None)
        .unwrap();
    let listed = manager.list_delegations("bob").unwrap();
    assert_eq!(listed.len(), 2);
    assert_eq!(listed[0].delegated_permissions, vec!["read".to_string()]);
    assert_eq!(listed[1].delegated_permissions, vec!["write".to_string()]);
    assert!(manager.list_delegations("dave").unwrap().is_empty());
}
