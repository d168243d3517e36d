use rust_decimal::Decimal;
use toka::domain::amount::{checked_product, checked_quotient, compare_amounts, Amount};
use toka::domain::pricing::{CreatorTier, CreditPackageTier, PayoutType};
use toka::domain::pricing_model::{
    eq_ignore_ascii_case, tier_name, AgentPricingConfig, CashoutFeeConfig, ContentUnlockFeeConfig,
    CreatorEmpowermentFundConfig, CreditPackage, CreditPackageView, DefaultPricingPolicy,
    FairnessMultiplierConfig, FeeSchedule, PayoutSettings, PlatformPricingConfig, PricingPolicy,
    PricingService, TakeRateSlidingWindowConfig,
};

fn dec(num: i64, scale: u32) -> Amount {
    Amount::new(num, scale)
}

fn to_decimal(a: &Amount) -> Decimal {
    let m = a.mantissa();
    Decimal::from_parts(m as u32, (m >> 32) as u32, (m >> 64) as u32, a.is_sign_negative(), a.scale())
}

fn create_sample_config_builder() -> PlatformPricingConfig {
    PlatformPricingConfig {
        credit_packages: vec![
            CreditPackage {
                tier: CreditPackageTier::Starter,
                package_id: 0x1111,
                display_name: "Starter Pack".to_string(),
                credits_amount: 100,
                price_usd: dec(1299, 2),
                bonus_credits: Some(10),
                discount_percentage: None,
                badge: Some("Most Popular".to_string()),
                is_active: true,
            },
            CreditPackage {
                tier: CreditPackageTier::Pro,
                package_id: 0x2222,
                display_name: "Pro Pack".to_string(),
                credits_amount: 500,
                price_usd: dec(4999, 2),
                bonus_credits: Some(75),
                discount_percentage: Some(dec(100, 1)),
                badge: None,
                is_active: true,
            },
            CreditPackage {
                tier: CreditPackageTier::Creator,
                package_id: 0x3333,
                display_name: "Creator Bundle".to_string(),
                credits_amount: 1000,
                price_usd: dec(8999, 2),
                bonus_credits: Some(200),
                discount_percentage: None,
                badge: None,
                is_active: false,
            },
        ],
        fee_schedules: vec![
            FeeSchedule {
                tier: CreatorTier::Micro,
                content_unlock_fees: vec![ContentUnlockFeeConfig {
                    percentage: Some(dec(100, 1)),
                    fixed_usd: None,
                    description: Some("Standard content unlock".to_string()),
                }],
                cashout_fees: vec![CashoutFeeConfig {
                    percentage: Some(dec(50, 1)),
                    fixed_usd: Some(dec(10, 1)),
                    minimum_transaction_for_fee_usd: Some(dec(100, 1)),
                    description: Some("Standard cashout".to_string()),
                }],
            },
            FeeSchedule {
                tier: CreatorTier::Top,
                content_unlock_fees: vec![ContentUnlockFeeConfig {
                    percentage: Some(dec(150, 1)),
                    fixed_usd: None,
                    description: Some("Top creator content unlock".to_string()),
                }],
                cashout_fees: vec![CashoutFeeConfig {
                    percentage: Some(dec(30, 1)),
                    fixed_usd: None,
                    minimum_transaction_for_fee_usd: None,
                    description: Some("Top creator cashout".to_string()),
                }],
            },
        ],
        agent_pricing: AgentPricingConfig {
            ai_owned_additional_fee_percentage: Some(dec(20, 1)),
            hybrid_collaboration_discount_percentage: Some(dec(10, 1)),
        },
        creator_empowerment_fund: CreatorEmpowermentFundConfig {
            allocation_percentage: dec(50, 1),
            minimum_platform_revenue_share_for_allocation_usd: Some(dec(100000, 1)),
            usage_guidelines: vec!["Grants".to_string()],
        },
        payout_settings: PayoutSettings {
            minimum_payout_credits: 1000,
            maximum_single_payout_credits: Some(50000),
            supported_payout_types: vec![PayoutType::PayPal],
            estimated_processing_time_days: Some(3),
            kyc_threshold_usd: Some(dec(6000, 1)),
        },
        fairness_multiplier_config: FairnessMultiplierConfig {
            is_enabled: false,
            user_ltv_adjustment_factor: None,
            region_ppp_adjustment_factor: None,
            creator_supply_demand_adjustment_factor: None,
        },
        take_rate_sliding_window: None,
        default_currency: "USD".to_string(),
        default_platform_take_rate_percentage: dec(100, 1),
        model_version: "1.3.0".to_string(),
    }
}

fn get_test_platform_config() -> PlatformPricingConfig {
    create_sample_config_builder()
}

fn window(min: Amount, max: Amount, suggested: Amount) -> Option<TakeRateSlidingWindowConfig> {
    Some(TakeRateSlidingWindowConfig {
        is_enabled: true,
        min_take_rate_percentage: min,
        max_take_rate_percentage: max,
        current_suggested_take_rate_percentage: suggested,
    })
}

#[test]
fn test_get_effective_platform_take_rate_default() {
    let mut config = get_test_platform_config();
    config.default_platform_take_rate_percentage = dec(120, 1);
    config.take_rate_sliding_window = None;
    assert_eq!(to_decimal(&config.get_effective_platform_take_rate()), Decimal::new(120, 1));

    config.take_rate_sliding_window = Some(TakeRateSlidingWindowConfig {
        is_enabled: false,
        min_take_rate_percentage: dec(50, 1),
        max_take_rate_percentage: dec(250, 1),
        current_suggested_take_rate_percentage: dec(150, 1),
    });
    assert_eq!(to_decimal(&config.get_effective_platform_take_rate()), Decimal::new(120, 1));

    config.default_platform_take_rate_percentage = dec(-50, 1);
    config.take_rate_sliding_window = None;
    assert_eq!(to_decimal(&config.get_effective_platform_take_rate()), Decimal::ZERO);
}

#[test]
fn test_get_effective_platform_take_rate_sliding_window_enabled() {
    let mut config = get_test_platform_config();
    config.take_rate_sliding_window = window(dec(50, 1), dec(250, 1), dec(150, 1));
    assert_eq!(to_decimal(&config.get_effective_platform_take_rate()), Decimal::new(150, 1));

    config.take_rate_sliding_window = window(dec(50, 1), dec(250, 1), dec(30, 1));
    assert_eq!(to_decimal(&config.get_effective_platform_take_rate()), Decimal::new(50, 1));

    config.take_rate_sliding_window = window(dec(50, 1), dec(250, 1), dec(300, 1));
    assert_eq!(to_decimal(&config.get_effective_platform_take_rate()), Decimal::new(250, 1));

    config.take_rate_sliding_window = window(dec(50, 1), dec(250, 1), dec(-20, 1));
    assert_eq!(to_decimal(&config.get_effective_platform_take_rate()), Decimal::new(50, 1));

    config.take_rate_sliding_window = window(dec(-50, 1), dec(250, 1), dec(-20, 1));
    assert_eq!(to_decimal(&config.get_effective_platform_take_rate()), Decimal::ZERO);

    config.take_rate_sliding_window = window(dec(100, 1), dec(50, 1), dec(120, 1));
    assert_eq!(to_decimal(&config.get_effective_platform_take_rate()), Decimal::new(100, 1));

    config.take_rate_sliding_window = window(dec(100, 1), dec(50, 1), dec(30, 1));
    assert_eq!(to_decimal(&config.get_effective_platform_take_rate()), Decimal::new(100, 1));
}

#[test]
fn test_credit_package_view_conversion() {
    let sample_config = get_test_platform_config();
    let original_package =
        sample_config.credit_packages.iter().find(|p| matches!(p.tier, CreditPackageTier::Starter)).unwrap();
    let view = CreditPackageView::from(original_package);
    assert_eq!(view.tier_name, "Starter");
    assert_eq!(view.package_id, original_package.package_id);
    assert_eq!(view.display_name, original_package.display_name);
    assert_eq!(view.base_credits, 100);
    assert_eq!(view.bonus_credits, 10);
    assert_eq!(view.total_credits, 110);
    assert_eq!(to_decimal(&view.price_usd), Decimal::new(1299, 2));
    assert_eq!(to_decimal(&view.effective_credit_price_usd.unwrap()).round_dp(5), Decimal::new(11809, 5));
    assert_eq!(view.badge, Some("Most Popular".to_string()));
}

#[test]
fn test_default_pricing_policy() {
    let config = get_test_platform_config();
    let policy = DefaultPricingPolicy::new(config.clone());

    let packages = policy.list_available_packages();
    assert_eq!(packages.len(), 2);
    assert!(packages.iter().any(|p| p.tier_name == "Starter"));
    assert!(packages.iter().any(|p| p.tier_name == "Pro"));
    assert!(!packages.iter().any(|p| p.tier_name == "Creator"));

    let starter_pack_by_tier = policy.get_package_by_tier_name("Starter").unwrap();
    assert_eq!(starter_pack_by_tier.display_name, "Starter Pack");

    let pro_pack_id =
        config.credit_packages.iter().find(|p| matches!(p.tier, CreditPackageTier::Pro)).unwrap().package_id;
    let pro_pack_by_id = policy.get_package_by_id(pro_pack_id).unwrap();
    assert_eq!(pro_pack_by_id.display_name, "Pro Pack");

    let non_existent_tier = policy.get_package_by_tier_name("NonExistent");
    assert!(non_existent_tier.is_none());

    let inactive_pack =
        config.credit_packages.iter().find(|p| matches!(p.tier, CreditPackageTier::Creator)).unwrap();
    let inactive_by_id = policy.get_package_by_id(inactive_pack.package_id);
    assert!(inactive_by_id.is_none());
}

#[test]
fn test_pricing_service() {
    let config = get_test_platform_config();
    let policy = DefaultPricingPolicy::new(config.clone());
    let service = PricingService::new(policy);

    let packages = service.get_available_packages();
    assert_eq!(packages.len(), 2);

    let starter_pack = service.get_package_by_tier("Starter").unwrap();
    assert_eq!(starter_pack.display_name, "Starter Pack");

    let pro_pack_id =
        config.credit_packages.iter().find(|p| matches!(p.tier, CreditPackageTier::Pro)).unwrap().package_id;
    let pro_pack_by_id = service.get_package_by_id(pro_pack_id).unwrap();
    assert_eq!(pro_pack_by_id.display_name, "Pro Pack");
}

#[test]
fn test_sample_config_creation() {
    let config = get_test_platform_config();
    assert_eq!(config.credit_packages.len(), 3);
    assert_eq!(config.fee_schedules.len(), 2);
    assert!(config.get_fee_schedule(&CreatorTier::Micro).is_some());
    assert_eq!(config.model_version, "1.3.0");
}

#[test]
fn test_empowerment_fund_allocation_with_zero_fee() {
    let config = get_test_platform_config();
    let allocation = config.calculate_empowerment_fund_allocation(0);
    assert_eq!(allocation, 0);
}

#[test]
fn test_empowerment_fund_allocation_with_negative_percentage_config() {
    let mut config = get_test_platform_config();
    config.creator_empowerment_fund.allocation_percentage = dec(-100, 1);
    let allocation = config.calculate_empowerment_fund_allocation(100);
    assert_eq!(allocation, 0);
}

#[test]
fn test_effective_price_per_credit() {
    let package = get_test_platform_config()
        .credit_packages
        .iter()
        .find(|p| matches!(p.tier, CreditPackageTier::Starter))
        .unwrap()
        .clone();
    assert_eq!(to_decimal(&package.effective_price_per_credit().unwrap()).round_dp(5), Decimal::new(11809, 5));
}

#[test]
fn test_content_unlock_fee_calculation() {
    let config = get_test_platform_config();
    let fee = config.calculate_content_unlock_fee(&CreatorTier::Micro, 100);
    assert_eq!(fee, Some(10));
    let fee_top = config.calculate_content_unlock_fee(&CreatorTier::Top, 100);
    assert_eq!(fee_top, Some(15));
}

#[test]
fn test_empowerment_fund_allocation() {
    let config = get_test_platform_config();
    let allocation = config.calculate_empowerment_fund_allocation(100);
    assert_eq!(allocation, 5);
}

#[test]
fn unlock_fee_edge_cases() {
    let config = get_test_platform_config();
    assert_eq!(config.calculate_content_unlock_fee(&CreatorTier::Emerging, 100), None);
    assert_eq!(config.try_calculate_content_unlock_fee(&CreatorTier::Micro, 155), Some(Some(15)));
    let mut negative = get_test_platform_config();
    negative.fee_schedules[0].content_unlock_fees[0].percentage = Some(dec(-100, 1));
    assert_eq!(negative.calculate_content_unlock_fee(&CreatorTier::Micro, 100), None);
    let mut overflowing = get_test_platform_config();
    overflowing.fee_schedules[0].content_unlock_fees[0].percentage = Some(dec(i64::MAX, 0));
    assert_eq!(overflowing.try_calculate_content_unlock_fee(&CreatorTier::Micro, u64::MAX), None);
    assert_eq!(overflowing.try_calculate_empowerment_fund_allocation(0), Some(0));
}

#[test]
fn packages_by_tier_and_id() {
    let config = get_test_platform_config();
    assert_eq!(config.get_credit_package_by_tier(&CreditPackageTier::Pro).unwrap().package_id, 0x2222);
    assert!(config.get_credit_package_by_tier(&CreditPackageTier::Custom("x".to_string())).is_none());
    assert_eq!(config.get_credit_package_by_id(0x3333).unwrap().display_name, "Creator Bundle");
    assert!(config.get_credit_package_by_id(0x4444).is_none());
    let policy = DefaultPricingPolicy::new(config);
    assert_eq!(policy.get_package_by_tier_name("starter").unwrap().package_id, 0x1111);
    assert!(policy.get_package_by_tier_name("Creator").is_none());
}

#[test]
fn tier_names_and_case() {
    assert_eq!(tier_name(&CreditPackageTier::Custom("vip".to_string())), "Custom(\"vip\")");
    assert!(eq_ignore_ascii_case("PrO", "pro"));
    assert!(!eq_ignore_ascii_case("pro", "prox"));
}

#[test]
fn amount_arithmetic_through_rust_decimal() {
    assert_eq!(compare_amounts(&dec(10, 0), &dec(100, 1)), 0);
    assert_eq!(compare_amounts(&dec(-1, 0), &dec(0, 0)), -1);
    let p = checked_product(&dec(100, 0), &dec(150, 1)).unwrap();
    assert_eq!(to_decimal(&p), Decimal::new(1500, 0));
    let q = checked_quotient(&p, &Amount::from_u64(100)).unwrap();
    assert_eq!(q.to_u64(), Some(15));
    assert!(checked_quotient(&p, &Amount::zero()).is_none());
    assert_eq!(dec(-5, 1).to_u64(), None);
    assert_eq!(dec(199, 1).to_u64(), Some(19));
}
