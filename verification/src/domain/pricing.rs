//! The kinds of the pricing model: tiers of credit packages and of
//! creators, and the ways creators are paid out.

use vstd::prelude::*;

verus! {

/// Tiers of credit packages.
#[derive(Debug, Clone, PartialEq, Eq, Hash)]
pub enum CreditPackageTier {
    /// The entry package.
    Starter,
    /// The larger package.
    Pro,
    /// The package for creators.
    Creator,
    /// A bespoke package, by name.
    Custom(String),
}

/// Tiers of creators.
#[derive(Debug, Clone, PartialEq, Eq, Hash)]
pub enum CreatorTier {
    /// Small audience.
    Micro,
    /// Medium audience.
    MidTier,
    /// Large audience.
    Top,
    /// New on the platform.
    Emerging,
    /// A specific category, by name.
    Custom(String),
}

/// Ways a creator is paid out.
#[derive(Debug, Clone, PartialEq, Eq, Hash)]
pub enum PayoutType {
    /// A gift card of the named store.
    GiftCard(String),
    /// A prepaid Visa card.
    PrepaidVisa,
    /// PayPal.
    PayPal,
    /// Venmo.
    Venmo,
    /// A bank transfer.
    AchTransfer,
    /// Another way, by name.
    Other(String),
}

} // verus!
