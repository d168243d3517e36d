//! The pricing model of the platform: credit packages and their views, the
//! fee schedules of creator tiers, the creator empowerment fund, payouts,
//! and the platform's take rate with its sliding window. Amounts of money
//! and percentages are decimal amounts; package identifiers are 128-bit.

use vstd::prelude::*;
use crate::domain::amount::{
    Amount, checked_product, checked_quotient, clamp_amount, decimal_product, decimal_quotient,
    max_amount, signed_mantissa, value_order, whole_u64,
};
use crate::domain::pricing::{CreatorTier, CreditPackageTier, PayoutType};
use crate::runtime::text::same_text;
use crate::support::join_text;

verus! {

/// A purchasable package of credits.
#[derive(Debug, Clone)]
pub struct CreditPackage {
    pub tier: CreditPackageTier,
    pub package_id: u128,
    pub display_name: String,
    /// Credits in the package.
    pub credits_amount: u64,
    /// Price in USD.
    pub price_usd: Amount,
    /// Credits offered on top.
    pub bonus_credits: Option<u64>,
    /// Discount in percent.
    pub discount_percentage: Option<Amount>,
    /// A label such as "Most Popular".
    pub badge: Option<String>,
    /// Whether it can be bought.
    pub is_active: bool,
}

/// A fee on unlocking content.
#[derive(Debug, Clone)]
pub struct ContentUnlockFeeConfig {
    /// Fee in percent.
    pub percentage: Option<Amount>,
    /// Fixed fee in USD.
    pub fixed_usd: Option<Amount>,
    pub description: Option<String>,
}

/// A fee on cashing out.
#[derive(Debug, Clone)]
pub struct CashoutFeeConfig {
    /// Fee in percent.
    pub percentage: Option<Amount>,
    /// Fixed fee in USD.
    pub fixed_usd: Option<Amount>,
    /// Smallest cashout in USD the fee applies to.
    pub minimum_transaction_for_fee_usd: Option<Amount>,
    pub description: Option<String>,
}

/// The fees of a creator tier.
#[derive(Debug, Clone)]
pub struct FeeSchedule {
    pub tier: CreatorTier,
    pub content_unlock_fees: Vec<ContentUnlockFeeConfig>,
    pub cashout_fees: Vec<CashoutFeeConfig>,
}

/// Fees of transactions of AI agents.
#[derive(Debug, Clone)]
pub struct AgentPricingConfig {
    /// Extra platform fee in percent for agents owned by an AI.
    pub ai_owned_additional_fee_percentage: Option<Amount>,
    /// Discount in percent for work of a human with an AI.
    pub hybrid_collaboration_discount_percentage: Option<Amount>,
}

/// The creator empowerment fund.
#[derive(Debug, Clone)]
pub struct CreatorEmpowermentFundConfig {
    /// Share of platform fees given to the fund, in percent.
    pub allocation_percentage: Amount,
    /// Platform revenue in USD before the fund receives anything.
    pub minimum_platform_revenue_share_for_allocation_usd: Option<Amount>,
    /// What the fund may be used for.
    pub usage_guidelines: Vec<String>,
}

/// How creators are paid out.
#[derive(Debug, Clone)]
pub struct PayoutSettings {
    /// Smallest payout in credits.
    pub minimum_payout_credits: u64,
    /// Largest single payout in credits.
    pub maximum_single_payout_credits: Option<u64>,
    pub supported_payout_types: Vec<PayoutType>,
    /// Days a payout takes.
    pub estimated_processing_time_days: Option<u8>,
    /// USD above which a payout needs identity checks.
    pub kyc_threshold_usd: Option<Amount>,
}

/// Adjustments of prices and fees.
#[derive(Debug, Clone)]
pub struct FairnessMultiplierConfig {
    pub is_enabled: bool,
    pub user_ltv_adjustment_factor: Option<Amount>,
    pub region_ppp_adjustment_factor: Option<Amount>,
    pub creator_supply_demand_adjustment_factor: Option<Amount>,
}

/// A window the platform's take rate moves in.
#[derive(Debug, Clone)]
pub struct TakeRateSlidingWindowConfig {
    pub is_enabled: bool,
    /// Lowest take rate in percent.
    pub min_take_rate_percentage: Amount,
    /// Highest take rate in percent.
    pub max_take_rate_percentage: Amount,
    /// The suggested take rate in percent, before it is held in the window.
    pub current_suggested_take_rate_percentage: Amount,
}

/// The whole pricing configuration of the platform.
#[derive(Debug, Clone)]
pub struct PlatformPricingConfig {
    pub credit_packages: Vec<CreditPackage>,
    pub fee_schedules: Vec<FeeSchedule>,
    pub agent_pricing: AgentPricingConfig,
    pub creator_empowerment_fund: CreatorEmpowermentFundConfig,
    pub payout_settings: PayoutSettings,
    pub fairness_multiplier_config: FairnessMultiplierConfig,
    pub take_rate_sliding_window: Option<TakeRateSlidingWindowConfig>,
    /// Currency, such as "USD".
    pub default_currency: String,
    /// The platform's take rate in percent when no window applies.
    pub default_platform_take_rate_percentage: Amount,
    pub model_version: String,
}

/// Whether the credits of a package, bonus included, fit 64 bits.
pub open spec fn credits_fit(p: CreditPackage) -> bool {
    p.credits_amount + bonus_of(p) <= u64::MAX
}

/// The bonus credits of a package, none counting as 0.
pub open spec fn bonus_of(p: CreditPackage) -> u64 {
    match p.bonus_credits {
        Some(b) => b,
        None => 0,
    }
}

/// The price per credit of a package: none for a price of zero or below or
/// no credits, else the price divided by the credits, bonus included.
pub open spec fn price_per_credit(p: CreditPackage) -> Option<crate::domain::amount::AmountParts> {
    if signed_mantissa(p.price_usd.parts()) <= 0 || p.credits_amount + bonus_of(p) == 0 {
        None
    } else {
        decimal_quotient(p.price_usd.parts(), (false, (p.credits_amount + bonus_of(p)) as u128, 0u32))
    }
}

/// The parts of an optional amount.
pub open spec fn optional_parts(a: Option<Amount>) -> Option<crate::domain::amount::AmountParts> {
    match a {
        Some(x) => Some(x.parts()),
        None => None,
    }
}

impl CreditPackage {
    /// The credits of the package, bonus included.
    pub fn total_credits(&self) -> (r: u64)
        requires
            credits_fit(*self),
        ensures
            r == self.credits_amount + bonus_of(*self),
    {
        let bonus = match self.bonus_credits {
            Some(b) => b,
            None => 0,
        };
        self.credits_amount + bonus
    }

    /// The price per credit, bonus included: none for a price of zero or
    /// below, or for a package without credits.
    pub fn effective_price_per_credit(&self) -> (r: Option<Amount>)
        requires
            credits_fit(*self),
        ensures
            optional_parts(r) == price_per_credit(*self),
    {
        if self.price_usd.is_at_most_zero() {
            return None;
        }
        let total = self.total_credits();
        if total == 0 {
            return None;
        }
        let divisor = Amount::from_u64(total);
        checked_quotient(&self.price_usd, &divisor)
    }
}

/// Whether two creator tiers are the same, custom ones by their names.
pub open spec fn same_creator_tier(a: CreatorTier, b: CreatorTier) -> bool {
    match (a, b) {
        (CreatorTier::Micro, CreatorTier::Micro) => true,
        (CreatorTier::MidTier, CreatorTier::MidTier) => true,
        (CreatorTier::Top, CreatorTier::Top) => true,
        (CreatorTier::Emerging, CreatorTier::Emerging) => true,
        (CreatorTier::Custom(x), CreatorTier::Custom(y)) => x@ == y@,
        _ => false,
    }
}

/// Whether two package tiers are the same, custom ones by their names.
pub open spec fn same_package_tier(a: CreditPackageTier, b: CreditPackageTier) -> bool {
    match (a, b) {
        (CreditPackageTier::Starter, CreditPackageTier::Starter) => true,
        (CreditPackageTier::Pro, CreditPackageTier::Pro) => true,
        (CreditPackageTier::Creator, CreditPackageTier::Creator) => true,
        (CreditPackageTier::Custom(x), CreditPackageTier::Custom(y)) => x@ == y@,
        _ => false,
    }
}

/// Whether two creator tiers are the same.
pub fn creator_tiers_equal(a: &CreatorTier, b: &CreatorTier) -> (r: bool)
    ensures
        r == same_creator_tier(*a, *b),
{
    match (a, b) {
        (CreatorTier::Micro, CreatorTier::Micro) => true,
        (CreatorTier::MidTier, CreatorTier::MidTier) => true,
        (CreatorTier::Top, CreatorTier::Top) => true,
        (CreatorTier::Emerging, CreatorTier::Emerging) => true,
        (CreatorTier::Custom(x), CreatorTier::Custom(y)) => same_text(x.as_str(), y.as_str()),
        _ => false,
    }
}

/// Whether two package tiers are the same.
pub fn package_tiers_equal(a: &CreditPackageTier, b: &CreditPackageTier) -> (r: bool)
    ensures
        r == same_package_tier(*a, *b),
{
    match (a, b) {
        (CreditPackageTier::Starter, CreditPackageTier::Starter) => true,
        (CreditPackageTier::Pro, CreditPackageTier::Pro) => true,
        (CreditPackageTier::Creator, CreditPackageTier::Creator) => true,
        (CreditPackageTier::Custom(x), CreditPackageTier::Custom(y)) => same_text(
            x.as_str(),
            y.as_str(),
        ),
        _ => false,
    }
}

/// The position of the first fee schedule of tier `tier`.
pub open spec fn first_schedule(s: Seq<FeeSchedule>, tier: CreatorTier) -> Option<int> {
    if exists|i: int| 0 <= i < s.len() && same_creator_tier(#[trigger] s[i].tier, tier) {
        Some(
            choose|i: int|
                0 <= i < s.len() && same_creator_tier(#[trigger] s[i].tier, tier) && forall|j: int|
                    0 <= j < i ==> !same_creator_tier(#[trigger] s[j].tier, tier),
        )
    } else {
        None
    }
}

/// Whether `i` is the position of the first element of `s` that `f` picks.
pub open spec fn is_first<T>(s: Seq<T>, f: spec_fn(T) -> bool, i: int) -> bool {
    0 <= i < s.len() && f(s[i]) && forall|j: int| 0 <= j < i ==> !f(#[trigger] s[j])
}

/// Whether `r` is the first element of `s` that `f` picks, none when
/// there is none.
pub open spec fn found_first<T>(s: Seq<T>, f: spec_fn(T) -> bool, r: Option<T>) -> bool {
    match r {
        Some(x) => exists|i: int| is_first(s, f, i) && #[trigger] s[i] == x,
        None => forall|i: int| 0 <= i < s.len() ==> !f(#[trigger] s[i]),
    }
}

/// Where an element is picked, a first one is.
pub proof fn lemma_first_exists<T>(s: Seq<T>, f: spec_fn(T) -> bool, i: int)
    requires
        0 <= i < s.len(),
        f(s[i]),
    ensures
        exists|k: int| #![trigger s[k]] is_first(s, f, k),
    decreases i,
{
    if forall|j: int| 0 <= j < i ==> !f(#[trigger] s[j]) {
        assert(is_first(s, f, i));
    } else {
        let j = choose|j: int| 0 <= j < i && f(#[trigger] s[j]);
        lemma_first_exists(s, f, j);
    }
}

/// The platform's take rate: with an enabled window, the suggested rate
/// held between the window's lowest rate (at least 0) and its highest rate
/// (at least that lowest rate), the suggested rate counting as at least 0;
/// otherwise the default rate, at least 0.
pub open spec fn effective_take_rate(c: PlatformPricingConfig) -> Amount {
    let zero = Amount::made_of(false, 0, 0);
    match c.take_rate_sliding_window {
        Some(w) if w.is_enabled => {
            let min_rate = max_of(w.min_take_rate_percentage, zero);
            let max_rate = max_of(w.max_take_rate_percentage, min_rate);
            let suggested = max_of(w.current_suggested_take_rate_percentage, zero);
            if value_order(suggested.parts(), min_rate.parts()) < 0 {
                min_rate
            } else if value_order(suggested.parts(), max_rate.parts()) > 0 {
                max_rate
            } else {
                suggested
            }
        },
        _ => max_of(c.default_platform_take_rate_percentage, zero),
    }
}

/// The greater of two amounts, the second when they are equal in value.
pub open spec fn max_of(a: Amount, b: Amount) -> Amount {
    if value_order(a.parts(), b.parts()) <= 0 {
        b
    } else {
        a
    }
}

/// The whole part of a percentage of an amount: `amount` × `percentage` /
/// 100 through `rust_decimal`, nothing when the product overflows; inside,
/// nothing when the whole part is negative or too large.
pub open spec fn percent_of(amount: u64, percentage: Amount) -> Option<Option<u64>> {
    match decimal_product((false, amount as u128, 0u32), percentage.parts()) {
        None => None,
        Some(p) => match decimal_quotient(p, (false, 100u128, 0u32)) {
            Some(q) => Some(whole_u64(q)),
            None => Some(None),
        },
    }
}

/// The whole part of `amount` × `percentage` / 100, nothing inside when it
/// is negative or too large; nothing at all when the product overflows.
pub fn try_percent_of(amount: u64, percentage: &Amount) -> (r: Option<Option<u64>>)
    ensures
        r == percent_of(amount, *percentage),
{
    let base = Amount::from_u64(amount);
    let product = match checked_product(&base, percentage) {
        Some(p) => p,
        None => {
            return None;
        },
    };
    let hundred = Amount::from_u64(100);
    match checked_quotient(&product, &hundred) {
        Some(q) => Some(q.to_u64()),
        None => Some(None),
    }
}

impl PlatformPricingConfig {
    /// The fee schedule of tier `tier`: the first one of that tier.
    pub fn get_fee_schedule(&self, tier: &CreatorTier) -> (r: Option<&FeeSchedule>)
        ensures
            found_first(
                self.fee_schedules@,
                |s: FeeSchedule| same_creator_tier(s.tier, *tier),
                match r {
                    Some(s) => Some(*s),
                    None => None,
                },
            ),
    {
        let ghost f = |s: FeeSchedule| same_creator_tier(s.tier, *tier);
        let mut i: usize = 0;
        while i < self.fee_schedules.len()
            invariant
                i <= self.fee_schedules@.len(),
                f == (|s: FeeSchedule| same_creator_tier(s.tier, *tier)),
                forall|j: int| 0 <= j < i ==> !f(#[trigger] self.fee_schedules@[j]),
            decreases self.fee_schedules.len() - i,
        {
            if creator_tiers_equal(&self.fee_schedules[i].tier, tier) {
                proof {
                    assert(is_first(self.fee_schedules@, f, i as int));
                }
                return Some(&self.fee_schedules[i]);
            }
            i = i + 1;
        }
        None
    }

    /// The credit package with identifier `package_id`: the first one.
    pub fn get_credit_package_by_id(&self, package_id: u128) -> (r: Option<&CreditPackage>)
        ensures
            found_first(
                self.credit_packages@,
                |p: CreditPackage| p.package_id == package_id,
                match r {
                    Some(p) => Some(*p),
                    None => None,
                },
            ),
    {
        let ghost f = |p: CreditPackage| p.package_id == package_id;
        let mut i: usize = 0;
        while i < self.credit_packages.len()
            invariant
                i <= self.credit_packages@.len(),
                f == (|p: CreditPackage| p.package_id == package_id),
                forall|j: int| 0 <= j < i ==> !f(#[trigger] self.credit_packages@[j]),
            decreases self.credit_packages.len() - i,
        {
            if self.credit_packages[i].package_id == package_id {
                proof {
                    assert(is_first(self.credit_packages@, f, i as int));
                }
                return Some(&self.credit_packages[i]);
            }
            i = i + 1;
        }
        None
    }

    /// The credit package of tier `package_tier`: the first one.
    pub fn get_credit_package_by_tier(&self, package_tier: &CreditPackageTier) -> (r: Option<
        &CreditPackage,
    >)
        ensures
            found_first(
                self.credit_packages@,
                |p: CreditPackage| same_package_tier(p.tier, *package_tier),
                match r {
                    Some(p) => Some(*p),
                    None => None,
                },
            ),
    {
        let ghost f = |p: CreditPackage| same_package_tier(p.tier, *package_tier);
        let mut i: usize = 0;
        while i < self.credit_packages.len()
            invariant
                i <= self.credit_packages@.len(),
                f == (|p: CreditPackage| same_package_tier(p.tier, *package_tier)),
                forall|j: int| 0 <= j < i ==> !f(#[trigger] self.credit_packages@[j]),
            decreases self.credit_packages.len() - i,
        {
            if package_tiers_equal(&self.credit_packages[i].tier, package_tier) {
                proof {
                    assert(is_first(self.credit_packages@, f, i as int));
                }
                return Some(&self.credit_packages[i]);
            }
            i = i + 1;
        }
        None
    }

    /// The content unlock fee of a creator of tier `creator_tier` on
    /// `unlock_amount_credits` credits, or nothing when the product of the
    /// credits and the fee percentage overflows: the first content fee of
    /// the tier's fee schedule, as a percentage of the credits, whole part;
    /// inside, none when the tier has no schedule, the schedule no content
    /// fee, the fee no percentage, or the fee is negative.
    pub fn try_calculate_content_unlock_fee(&self, creator_tier: &CreatorTier, unlock_amount_credits: u64)
        -> (r: Option<Option<u64>>)
        ensures
            ({
                let f = |s: FeeSchedule| same_creator_tier(s.tier, *creator_tier);
                &&& (forall|i: int| 0 <= i < self.fee_schedules@.len() ==> !f(
                    #[trigger] self.fee_schedules@[i],
                )) ==> r == Some(None::<u64>)
                &&& forall|i: int|
                    #![trigger self.fee_schedules@[i]]
                    is_first(self.fee_schedules@, f, i) ==> r == (
                    if self.fee_schedules@[i].content_unlock_fees@.len() == 0 {
                        Some(None::<u64>)
                    } else {
                        match self.fee_schedules@[i].content_unlock_fees@[0].percentage {
                            Some(p) => percent_of(unlock_amount_credits, p),
                            None => Some(None::<u64>),
                        }
                    })
            }),
    {
        let ghost f = |s: FeeSchedule| same_creator_tier(s.tier, *creator_tier);
        let schedule = match self.get_fee_schedule(creator_tier) {
            Some(s) => s,
            None => {
                return Some(None);
            },
        };
        proof {
            let k = choose|k: int| is_first(self.fee_schedules@, f, k) && #[trigger] self.fee_schedules@[k] == *schedule;
            assert forall|i: int| #![trigger self.fee_schedules@[i]] is_first(self.fee_schedules@, f, i) implies i == k by {
                if i < k {
                    assert(!f(self.fee_schedules@[i]));
                } else if i > k {
                    assert(!f(self.fee_schedules@[k]));
                }
            }
        }
        if schedule.content_unlock_fees.len() == 0 {
            return Some(None);
        }
        match &schedule.content_unlock_fees[0].percentage {
            Some(p) => try_percent_of(unlock_amount_credits, p),
            None => Some(None),
        }
    }

    /// The content unlock fee of a creator of tier `creator_tier` on
    /// `unlock_amount_credits` credits: the first content fee of the tier's
    /// fee schedule, as a percentage of the credits, whole part; none when
    /// the tier has no schedule, the schedule no content fee, the fee no
    /// percentage, or the fee is negative. The product of the credits and
    /// the percentage must not overflow.
    pub fn calculate_content_unlock_fee(&self, creator_tier: &CreatorTier, unlock_amount_credits: u64)
        -> (r: Option<u64>)
        requires
            forall|i: int|
                #![trigger self.fee_schedules@[i]]
                is_first(
                    self.fee_schedules@,
                    |s: FeeSchedule| same_creator_tier(s.tier, *creator_tier),
                    i,
                ) && self.fee_schedules@[i].content_unlock_fees@.len() > 0
                    && self.fee_schedules@[i].content_unlock_fees@[0].percentage is Some ==> percent_of(
                    unlock_amount_credits,
                    self.fee_schedules@[i].content_unlock_fees@[0].percentage->0,
                ) is Some,
        ensures
            ({
                let f = |s: FeeSchedule| same_creator_tier(s.tier, *creator_tier);
                &&& (forall|i: int| 0 <= i < self.fee_schedules@.len() ==> !f(
                    #[trigger] self.fee_schedules@[i],
                )) ==> r is None
                &&& forall|i: int|
                    #![trigger self.fee_schedules@[i]]
                    is_first(self.fee_schedules@, f, i) ==> Some(r) == (
                    if self.fee_schedules@[i].content_unlock_fees@.len() == 0 {
                        Some(None::<u64>)
                    } else {
                        match self.fee_schedules@[i].content_unlock_fees@[0].percentage {
                            Some(p) => percent_of(unlock_amount_credits, p),
                            None => Some(None::<u64>),
                        }
                    })
            }),
    {
        let r = self.try_calculate_content_unlock_fee(creator_tier, unlock_amount_credits);
        proof {
            let f = |s: FeeSchedule| same_creator_tier(s.tier, *creator_tier);
            if exists|i: int| 0 <= i < self.fee_schedules@.len() && f(#[trigger] self.fee_schedules@[i]) {
                let i = choose|i: int| 0 <= i < self.fee_schedules@.len() && f(#[trigger] self.fee_schedules@[i]);
                lemma_first_exists(self.fee_schedules@, f, i);
            }
        }
        match r {
            Some(fee) => fee,
            None => None,
        }
    }
}

/// The share of a platform fee of `fee` credits that goes to the fund at
/// `percentage` percent, whole part: 0 for no fee or a negative
/// percentage, and 0 when the whole part is negative or too large;
/// nothing when the product of the fee and the percentage overflows.
pub open spec fn fund_share(fee: u64, percentage: Amount) -> Option<u64> {
    if fee == 0 || signed_mantissa(percentage.parts()) < 0 {
        Some(0)
    } else {
        match percent_of(fee, percentage) {
            None => None,
            Some(w) => Some(
                match w {
                    Some(x) => x,
                    None => 0,
                },
            ),
        }
    }
}

impl PlatformPricingConfig {
    /// The share of a platform fee that goes to the creator empowerment
    /// fund, or nothing when the product of the fee and the allocation
    /// percentage overflows.
    pub fn try_calculate_empowerment_fund_allocation(&self, platform_fee_amount: u64) -> (r: Option<
        u64,
    >)
        ensures
            r == fund_share(platform_fee_amount, self.creator_empowerment_fund.allocation_percentage),
    {
        if platform_fee_amount == 0 {
            return Some(0);
        }
        let percentage = &self.creator_empowerment_fund.allocation_percentage;
        if percentage.is_below_zero() {
            return Some(0);
        }
        match try_percent_of(platform_fee_amount, percentage) {
            None => None,
            Some(w) => Some(
                match w {
                    Some(x) => x,
                    None => 0,
                },
            ),
        }
    }

    /// The share of a platform fee that goes to the creator empowerment
    /// fund: the allocation percentage of the fee, whole part; 0 for no fee,
    /// a negative percentage, or a share that is negative or too large. The
    /// product of the fee and the percentage must not overflow.
    pub fn calculate_empowerment_fund_allocation(&self, platform_fee_amount: u64) -> (r: u64)
        requires
            fund_share(platform_fee_amount, self.creator_empowerment_fund.allocation_percentage) is Some,
        ensures
            Some(r) == fund_share(platform_fee_amount, self.creator_empowerment_fund.allocation_percentage),
    {
        match self.try_calculate_empowerment_fund_allocation(platform_fee_amount) {
            Some(x) => x,
            None => 0,
        }
    }

    /// The platform's take rate: with an enabled sliding window, the
    /// suggested rate held in the window, all rates counted as at least 0
    /// and the highest as at least the lowest; otherwise the default rate,
    /// at least 0.
    pub fn get_effective_platform_take_rate(&self) -> (r: Amount)
        ensures
            r == effective_take_rate(*self),
    {
        let zero = Amount::zero();
        proof {
            crate::domain::amount::lemma_made_of_parts(false, 0, 0);
            assert(zero == Amount::made_of(false, 0, 0));
        }
        if let Some(window) = &self.take_rate_sliding_window {
            if window.is_enabled {
                let min_rate = max_amount(window.min_take_rate_percentage, zero);
                let max_rate = max_amount(window.max_take_rate_percentage, min_rate);
                let suggested = max_amount(window.current_suggested_take_rate_percentage, zero);
                return clamp_amount(suggested, min_rate, max_rate);
            }
        }
        max_amount(self.default_platform_take_rate_percentage, zero)
    }
}

/// What `format!("{:?}", s)` writes for a text: the text quoted, with its
/// special characters escaped.
pub uninterp spec fn debug_str(s: Seq<char>) -> Seq<char>;

/// Formats a text through `format!("{:?}", s)`.
#[verifier::external_body]
fn debug_text(s: &str) -> (r: String)
    ensures
        r@ == debug_str(s@),
{
    format!("{:?}", s)
}

/// The name of a package tier as `format!("{:?}", tier)` writes it.
pub open spec fn tier_name_of(t: CreditPackageTier) -> Seq<char> {
    match t {
        CreditPackageTier::Starter => "Starter"@,
        CreditPackageTier::Pro => "Pro"@,
        CreditPackageTier::Creator => "Creator"@,
        CreditPackageTier::Custom(name) => "Custom("@ + debug_str(name@) + ")"@,
    }
}

/// The name of a package tier, as `format!("{:?}", tier)` writes it.
pub fn tier_name(t: &CreditPackageTier) -> (r: String)
    ensures
        r@ == tier_name_of(*t),
{
    match t {
        CreditPackageTier::Starter => "Starter".to_string(),
        CreditPackageTier::Pro => "Pro".to_string(),
        CreditPackageTier::Creator => "Creator".to_string(),
        CreditPackageTier::Custom(name) => {
            let quoted = debug_text(name.as_str());
            let a = join_text("Custom(", quoted.as_str());
            join_text(a.as_str(), ")")
        },
    }
}

/// A character with ASCII capitals made small.
pub open spec fn ascii_lower(c: char) -> char {
    if 'A' <= c <= 'Z' {
        ((c as u8) + 32) as char
    } else {
        c
    }
}

/// Whether two texts are equal once ASCII capitals are made small, as
/// `str::eq_ignore_ascii_case` compares them.
pub open spec fn same_ignoring_ascii_case(a: Seq<char>, b: Seq<char>) -> bool {
    a.len() == b.len() && forall|i: int| 0 <= i < a.len() ==> ascii_lower(#[trigger] a[i]) == ascii_lower(b[i])
}

/// A character with ASCII capitals made small.
fn lower_ascii_char(c: char) -> (r: char)
    ensures
        r == ascii_lower(c),
{
    if 'A' <= c && c <= 'Z' {
        ((c as u8) + 32) as char
    } else {
        c
    }
}

/// Whether two texts are equal once ASCII capitals are made small.
pub fn eq_ignore_ascii_case(a: &str, b: &str) -> (r: bool)
    ensures
        r == same_ignoring_ascii_case(a@, b@),
{
    let n = a.unicode_len();
    if n != b.unicode_len() {
        return false;
    }
    let mut i: usize = 0;
    while i < n
        invariant
            n == a@.len(),
            n == b@.len(),
            i <= n,
            forall|j: int| 0 <= j < i ==> ascii_lower(#[trigger] a@[j]) == ascii_lower(b@[j]),
        decreases n - i,
    {
        if lower_ascii_char(a.get_char(i)) != lower_ascii_char(b.get_char(i)) {
            return false;
        }
        i = i + 1;
    }
    true
}

/// A credit package as shown to buyers.
#[derive(Debug, Clone)]
pub struct CreditPackageView {
    /// The tier's name, such as "Starter".
    pub tier_name: String,
    pub package_id: u128,
    pub display_name: String,
    pub base_credits: u64,
    pub bonus_credits: u64,
    /// Base and bonus credits.
    pub total_credits: u64,
    pub price_usd: Amount,
    /// Price per credit, bonus included.
    pub effective_credit_price_usd: Option<Amount>,
    pub badge: Option<String>,
}

/// Whether `v` shows the package `p`.
pub open spec fn is_view_of(v: CreditPackageView, p: CreditPackage) -> bool {
    &&& v.tier_name@ == tier_name_of(p.tier)
    &&& v.package_id == p.package_id
    &&& v.display_name@ == p.display_name@
    &&& v.base_credits == p.credits_amount
    &&& v.bonus_credits == bonus_of(p)
    &&& v.total_credits == p.credits_amount + bonus_of(p)
    &&& v.price_usd == p.price_usd
    &&& optional_parts(v.effective_credit_price_usd) == price_per_credit(p)
    &&& v.badge == p.badge
}

/// A copy of an optional text.
fn copy_optional_text(t: &Option<String>) -> (r: Option<String>)
    ensures
        r == *t,
{
    match t {
        Some(s) => Some(s.clone()),
        None => None,
    }
}

impl CreditPackageView {
    /// The view of the package `cp`.
    pub fn from(cp: &CreditPackage) -> (v: CreditPackageView)
        requires
            credits_fit(*cp),
        ensures
            is_view_of(v, *cp),
    {
        let total_credits = cp.total_credits();
        CreditPackageView {
            tier_name: tier_name(&cp.tier),
            package_id: cp.package_id,
            display_name: cp.display_name.clone(),
            base_credits: cp.credits_amount,
            bonus_credits: match cp.bonus_credits {
                Some(b) => b,
                None => 0,
            },
            total_credits,
            price_usd: cp.price_usd,
            effective_credit_price_usd: cp.effective_price_per_credit(),
            badge: copy_optional_text(&cp.badge),
        }
    }
}

/// How packages are offered. Platforms bring their own policies.
pub trait PricingPolicy {
    /// The packages on sale.
    fn list_available_packages(&self) -> Vec<CreditPackageView>;

    /// The package on sale whose tier has the name `package_tier_name`.
    fn get_package_by_tier_name(&self, package_tier_name: &str) -> Option<CreditPackageView>;

    /// The package on sale with identifier `package_id`.
    fn get_package_by_id(&self, package_id: u128) -> Option<CreditPackageView>;
}

/// The active packages among `s`, in order.
pub open spec fn active_packages(s: Seq<CreditPackage>) -> Seq<CreditPackage>
    decreases s.len(),
{
    if s.len() == 0 {
        s
    } else if s.last().is_active {
        active_packages(s.drop_last()).push(s.last())
    } else {
        active_packages(s.drop_last())
    }
}

/// Whether the package named `name` in any ASCII case, and on sale, is `p`.
pub open spec fn offered_under(p: CreditPackage, name: Seq<char>) -> bool {
    p.is_active && same_ignoring_ascii_case(tier_name_of(p.tier), name)
}

/// Offers the packages of a pricing configuration.
pub struct DefaultPricingPolicy {
    config: PlatformPricingConfig,
}

impl DefaultPricingPolicy {
    /// The configuration.
    pub closed spec fn settings(&self) -> PlatformPricingConfig {
        self.config
    }

    /// The credits of every package fit 64 bits.
    #[verifier::type_invariant]
    closed spec fn packages_fit(&self) -> bool {
        forall|i: int| 0 <= i < self.config.credit_packages@.len() ==> credits_fit(
            #[trigger] self.config.credit_packages@[i],
        )
    }

    /// The policy of `config`, whose packages' credits must fit 64 bits.
    pub fn new(config: PlatformPricingConfig) -> (p: Self)
        requires
            forall|i: int| 0 <= i < config.credit_packages@.len() ==> credits_fit(
                #[trigger] config.credit_packages@[i],
            ),
        ensures
            p.settings() == config,
    {
        DefaultPricingPolicy { config }
    }
}

impl PricingPolicy for DefaultPricingPolicy {
    /// The views of the active packages, in order.
    fn list_available_packages(&self) -> (r: Vec<CreditPackageView>)
        ensures
            r@.len() == active_packages(self.settings().credit_packages@).len(),
            forall|i: int|
                0 <= i < r@.len() ==> is_view_of(
                    #[trigger] r@[i],
                    active_packages(self.settings().credit_packages@)[i],
                ),
    {
        proof {
            use_type_invariant(self);
        }
        let packages = &self.config.credit_packages;
        let mut out: Vec<CreditPackageView> = Vec::new();
        let mut i: usize = 0;
        while i < packages.len()
            invariant
                i <= packages@.len(),
                packages@ == self.settings().credit_packages@,
                forall|j: int| 0 <= j < packages@.len() ==> credits_fit(#[trigger] packages@[j]),
                out@.len() == active_packages(packages@.take(i as int)).len(),
                forall|j: int|
                    0 <= j < out@.len() ==> is_view_of(
                        #[trigger] out@[j],
                        active_packages(packages@.take(i as int))[j],
                    ),
            decreases packages.len() - i,
        {
            proof {
                assert(packages@.take(i + 1).drop_last() =~= packages@.take(i as int));
                assert(packages@.take(i + 1).last() == packages@[i as int]);
            }
            if packages[i].is_active {
                let v = CreditPackageView::from(&packages[i]);
                out.push(v);
            }
            i = i + 1;
        }
        assert(packages@.take(packages@.len() as int) =~= packages@);
        out
    }

    /// The view of the first active package whose tier's name is
    /// `package_tier_name` in any ASCII case.
    fn get_package_by_tier_name(&self, package_tier_name: &str) -> (r: Option<CreditPackageView>)
        ensures
            match r {
                Some(v) => exists|i: int|
                    #![trigger self.settings().credit_packages@[i]]
                    is_first(
                        self.settings().credit_packages@,
                        |p: CreditPackage| offered_under(p, package_tier_name@),
                        i,
                    ) && is_view_of(v, self.settings().credit_packages@[i]),
                None => forall|i: int|
                    0 <= i < self.settings().credit_packages@.len() ==> !offered_under(
                        #[trigger] self.settings().credit_packages@[i],
                        package_tier_name@,
                    ),
            },
    {
        proof {
            use_type_invariant(self);
        }
        let ghost f = |p: CreditPackage| offered_under(p, package_tier_name@);
        let packages = &self.config.credit_packages;
        let mut i: usize = 0;
        while i < packages.len()
            invariant
                i <= packages@.len(),
                packages@ == self.settings().credit_packages@,
                forall|j: int| 0 <= j < packages@.len() ==> credits_fit(#[trigger] packages@[j]),
                f == (|p: CreditPackage| offered_under(p, package_tier_name@)),
                forall|j: int| 0 <= j < i ==> !f(#[trigger] packages@[j]),
            decreases packages.len() - i,
        {
            if packages[i].is_active {
                let name = tier_name(&packages[i].tier);
                if eq_ignore_ascii_case(name.as_str(), package_tier_name) {
                    proof {
                        assert(is_first(packages@, f, i as int));
                    }
                    return Some(CreditPackageView::from(&packages[i]));
                }
            }
            i = i + 1;
        }
        None
    }

    /// The view of the first package with identifier `package_id`, when it
    /// is active.
    fn get_package_by_id(&self, package_id: u128) -> (r: Option<CreditPackageView>)
        ensures
            match r {
                Some(v) => exists|i: int|
                    #![trigger self.settings().credit_packages@[i]]
                    is_first(
                        self.settings().credit_packages@,
                        |p: CreditPackage| p.package_id == package_id,
                        i,
                    ) && self.settings().credit_packages@[i].is_active && is_view_of(
                        v,
                        self.settings().credit_packages@[i],
                    ),
                None => forall|i: int|
                    #![trigger self.settings().credit_packages@[i]]
                    is_first(
                        self.settings().credit_packages@,
                        |p: CreditPackage| p.package_id == package_id,
                        i,
                    ) ==> !self.settings().credit_packages@[i].is_active,
            },
    {
        proof {
            use_type_invariant(self);
        }
        let ghost f = |p: CreditPackage| p.package_id == package_id;
        match self.config.get_credit_package_by_id(package_id) {
            Some(p) => {
                proof {
                    let k = choose|k: int| is_first(self.config.credit_packages@, f, k)
                        && #[trigger] self.config.credit_packages@[k] == *p;
                    assert(credits_fit(self.config.credit_packages@[k]));
                    assert forall|i: int|
                        #![trigger self.config.credit_packages@[i]]
                        is_first(self.config.credit_packages@, f, i) implies i == k by {
                        if i < k {
                            assert(!f(self.config.credit_packages@[i]));
                        } else if i > k {
                            assert(!f(self.config.credit_packages@[k]));
                        }
                    }
                }
                if p.is_active {
                    Some(CreditPackageView::from(p))
                } else {
                    None
                }
            },
            None => None,
        }
    }
}

/// Pricing information through a policy.
pub struct PricingService<P: PricingPolicy> {
    policy: P,
}

impl<P: PricingPolicy> PricingService<P> {
    /// The policy.
    pub closed spec fn policy_spec(&self) -> P {
        self.policy
    }

    /// A service through `policy`.
    pub fn new(policy: P) -> (s: Self)
        ensures
            s.policy_spec() == policy,
    {
        PricingService { policy }
    }

    /// The packages on sale, as the policy lists them.
    pub fn get_available_packages(&self) -> Vec<CreditPackageView> {
        self.policy.list_available_packages()
    }

    /// The package on sale whose tier is named `tier_name`, as the policy
    /// finds it.
    pub fn get_package_by_tier(&self, tier_name: &str) -> Option<CreditPackageView> {
        self.policy.get_package_by_tier_name(tier_name)
    }

    /// The package on sale with identifier `package_id`, as the policy
    /// finds it.
    pub fn get_package_by_id(&self, package_id: u128) -> Option<CreditPackageView> {
        self.policy.get_package_by_id(package_id)
    }
}

} // verus!
