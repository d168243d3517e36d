//! Decimal amounts of money and percentages, held as `rust_decimal` holds
//! them: a sign, a mantissa below 2^96 and a scale of at most 28 decimals;
//! the amount is the mantissa divided by 10 to the scale. Multiplication
//! and division are `rust_decimal`'s own.

use vstd::prelude::*;

verus! {

/// 10 to the power `n`.
pub open spec fn pow10(n: nat) -> int
    decreases n,
{
    if n == 0 {
        1
    } else {
        10 * pow10((n - 1) as nat)
    }
}

/// The largest mantissa plus one: 2^96.
pub open spec fn mantissa_bound() -> int {
    0x1_0000_0000_0000_0000_0000_0000
}

/// The parts of an amount: whether negative, mantissa, scale.
pub type AmountParts = (bool, u128, u32);

/// The mantissa with the amount's sign.
pub open spec fn signed_mantissa(p: AmountParts) -> int {
    if p.0 {
        -(p.1 as int)
    } else {
        p.1 as int
    }
}

/// How `a` compares with `b` in value: -1 below, 0 equal, 1 above.
pub open spec fn value_order(a: AmountParts, b: AmountParts) -> int {
    let l = signed_mantissa(a) * pow10(b.2 as nat);
    let r = signed_mantissa(b) * pow10(a.2 as nat);
    if l < r {
        -1
    } else if l == r {
        0
    } else {
        1
    }
}

/// What `ToPrimitive::to_u64` gives for an amount: nothing when its sign is
/// negative, else its whole part when that fits 64 bits.
pub open spec fn whole_u64(p: AmountParts) -> Option<u64> {
    if p.0 {
        None
    } else if p.1 as int / pow10(p.2 as nat) <= u64::MAX {
        Some((p.1 as int / pow10(p.2 as nat)) as u64)
    } else {
        None
    }
}

/// A decimal amount.
#[derive(Debug, Clone, Copy)]
pub struct Amount {
    negative: bool,
    mantissa: u128,
    scale: u32,
}

/// What `rust_decimal` gives for the product of two amounts: nothing when
/// it overflows.
pub uninterp spec fn decimal_product(a: AmountParts, b: AmountParts) -> Option<AmountParts>;

/// What `rust_decimal` gives for the quotient of two amounts: nothing when
/// the divisor is zero or the quotient overflows.
pub uninterp spec fn decimal_quotient(a: AmountParts, b: AmountParts) -> Option<AmountParts>;

impl Amount {
    /// The parts of the amount.
    pub closed spec fn parts(&self) -> AmountParts {
        (self.negative, self.mantissa, self.scale)
    }

    /// The amount of the given parts.
    pub closed spec fn made_of(negative: bool, mantissa: u128, scale: u32) -> Amount {
        Amount { negative, mantissa, scale }
    }

    /// The mantissa stays below 2^96 and the scale at most 28.
    #[verifier::type_invariant]
    closed spec fn bounded(&self) -> bool {
        self.mantissa < 0x1_0000_0000_0000_0000_0000_0000 && self.scale <= 28
    }

    /// The amount `num` / 10^`scale`, as `Decimal::new` makes it.
    pub fn new(num: i64, scale: u32) -> (a: Amount)
        requires
            scale <= 28,
        ensures
            signed_mantissa(a.parts()) == num,
            a.parts().0 == (num < 0),
            a.parts().2 == scale,
    {
        if num < 0 {
            let m: u128 = (-(num as i128)) as u128;
            Amount { negative: true, mantissa: m, scale }
        } else {
            Amount { negative: false, mantissa: num as u128, scale }
        }
    }

    /// The whole number `n`, as `Decimal::from` makes it.
    pub fn from_u64(n: u64) -> (a: Amount)
        ensures
            a.parts() == (false, n as u128, 0u32),
    {
        Amount { negative: false, mantissa: n as u128, scale: 0 }
    }

    /// Zero, as `Decimal::ZERO`.
    pub fn zero() -> (a: Amount)
        ensures
            a.parts() == (false, 0u128, 0u32),
            a == Amount::made_of(false, 0, 0),
    {
        Amount { negative: false, mantissa: 0, scale: 0 }
    }

    /// The amount of the given parts, when the mantissa is below 2^96 and
    /// the scale at most 28.
    pub fn from_parts(negative: bool, mantissa: u128, scale: u32) -> (a: Option<Amount>)
        ensures
            mantissa < mantissa_bound() && scale <= 28 ==> a == Some(Amount::made_of(negative, mantissa, scale)),
            !(mantissa < mantissa_bound() && scale <= 28) ==> a is None,
            a matches Some(x) ==> x.parts() == (negative, mantissa, scale),
    {
        if mantissa < 0x1_0000_0000_0000_0000_0000_0000 && scale <= 28 {
            Some(Amount { negative, mantissa, scale })
        } else {
            None
        }
    }

    /// Whether the sign is negative.
    pub fn is_sign_negative(&self) -> (r: bool)
        ensures
            r == self.parts().0,
    {
        self.negative
    }

    /// The mantissa.
    pub fn mantissa(&self) -> (r: u128)
        ensures
            r == self.parts().1,
            r < mantissa_bound(),
    {
        proof {
            use_type_invariant(self);
        }
        self.mantissa
    }

    /// The scale.
    pub fn scale(&self) -> (r: u32)
        ensures
            r == self.parts().2,
            r <= 28,
    {
        proof {
            use_type_invariant(self);
        }
        self.scale
    }

    /// Whether the amount is zero.
    pub fn is_zero(&self) -> (r: bool)
        ensures
            r == (self.parts().1 == 0),
    {
        self.mantissa == 0
    }

    /// Whether the amount is below zero.
    pub fn is_below_zero(&self) -> (r: bool)
        ensures
            r == (signed_mantissa(self.parts()) < 0),
    {
        self.negative && self.mantissa != 0
    }

    /// Whether the amount is zero or below.
    pub fn is_at_most_zero(&self) -> (r: bool)
        ensures
            r == (signed_mantissa(self.parts()) <= 0),
    {
        self.negative || self.mantissa == 0
    }

    /// The whole part, as `ToPrimitive::to_u64` gives it: nothing when the
    /// sign is negative or the whole part does not fit 64 bits.
    pub fn to_u64(&self) -> (r: Option<u64>)
        ensures
            r == whole_u64(self.parts()),
    {
        proof {
            use_type_invariant(self);
        }
        if self.negative {
            return None;
        }
        let mut whole: u128 = self.mantissa;
        let mut i: u32 = 0;
        proof {
            assert(pow10(0) == 1);
        }
        while i < self.scale
            invariant
                i <= self.scale,
                whole as int == self.mantissa as int / pow10(i as nat),
            decreases self.scale - i,
        {
            proof {
                lemma_div_pow10_step(self.mantissa as int, i as nat);
            }
            whole = whole / 10;
            i = i + 1;
        }
        if whole <= 0xffff_ffff_ffff_ffffu128 {
            Some(whole as u64)
        } else {
            None
        }
    }
}

proof fn lemma_pow10_positive(n: nat)
    ensures
        pow10(n) > 0,
    decreases n,
{
    if n > 0 {
        lemma_pow10_positive((n - 1) as nat);
    }
}

proof fn lemma_div_pow10_step(m: int, i: nat)
    requires
        m >= 0,
    ensures
        m / pow10(i + 1) == (m / pow10(i)) / 10,
{
    lemma_pow10_positive(i);
    assert(pow10(i + 1) == 10 * pow10(i));
    vstd::arithmetic::div_mod::lemma_div_denominator(m, pow10(i), 10);
    vstd::arithmetic::mul::lemma_mul_is_commutative(pow10(i), 10);
}

/// The parts of an amount made of parts.
pub proof fn lemma_made_of_parts(negative: bool, mantissa: u128, scale: u32)
    ensures
        Amount::made_of(negative, mantissa, scale).parts() == (negative, mantissa, scale),
{
}

/// Amounts with the same parts are the same.
pub proof fn lemma_parts_determine(a: Amount, b: Amount)
    requires
        a.parts() == b.parts(),
    ensures
        a == b,
{
}

/// Compares two amounts by value through `rust_decimal`'s `<` and `==`,
/// which compare the numbers the amounts stand for, whatever their scales.
#[verifier::external_body]
pub fn compare_amounts(a: &Amount, b: &Amount) -> (r: i8)
    ensures
        r == value_order(a.parts(), b.parts()),
{
    let x = rust_decimal::Decimal::from_parts(a.mantissa as u32, (a.mantissa >> 32) as u32, (a.mantissa >> 64) as u32, a.negative, a.scale);
    let y = rust_decimal::Decimal::from_parts(b.mantissa as u32, (b.mantissa >> 32) as u32, (b.mantissa >> 64) as u32, b.negative, b.scale);
    if x < y { -1 } else if x == y { 0 } else { 1 }
}

/// Multiplies two amounts through `Decimal::checked_mul`: nothing when the
/// product overflows. As `mul_impl` shows, a zero operand gives zero, and a
/// product whose mantissa stays below 2^96 and whose scale stays at most 28
/// is exact, with the sign of the operands' signs combined.
#[verifier::external_body]
pub fn checked_product(a: &Amount, b: &Amount) -> (r: Option<Amount>)
    ensures
        match r {
            Some(p) => decimal_product(a.parts(), b.parts()) == Some(p.parts()),
            None => decimal_product(a.parts(), b.parts()) is None,
        },
        a.parts().1 == 0 || b.parts().1 == 0 ==> r == Some(Amount::made_of(false, 0, 0)),
        a.parts().1 != 0 && b.parts().1 != 0 && a.parts().1 * b.parts().1 < mantissa_bound() && a.parts().2 + b.parts().2 <= 28 ==> r == Some(Amount::made_of(a.parts().0 != b.parts().0, (a.parts().1 * b.parts().1) as u128, (a.parts().2 + b.parts().2) as u32)),
{
    let x = rust_decimal::Decimal::from_parts(a.mantissa as u32, (a.mantissa >> 32) as u32, (a.mantissa >> 64) as u32, a.negative, a.scale);
    let y = rust_decimal::Decimal::from_parts(b.mantissa as u32, (b.mantissa >> 32) as u32, (b.mantissa >> 64) as u32, b.negative, b.scale);
    x.checked_mul(y).map(|d| Amount { negative: d.is_sign_negative(), mantissa: d.mantissa().unsigned_abs(), scale: d.scale() })
}

/// Divides two amounts through `Decimal::checked_div`: nothing when the
/// divisor is zero or the quotient overflows. As `div_impl` shows, a zero
/// dividend gives zero, and a whole divisor of at least one gives a
/// quotient no larger than the dividend, so it does not overflow.
#[verifier::external_body]
pub fn checked_quotient(a: &Amount, b: &Amount) -> (r: Option<Amount>)
    ensures
        match r {
            Some(q) => decimal_quotient(a.parts(), b.parts()) == Some(q.parts()),
            None => decimal_quotient(a.parts(), b.parts()) is None,
        },
        b.parts().1 == 0 ==> r == None::<Amount>,
        b.parts().1 != 0 && a.parts().1 == 0 ==> r == Some(Amount::made_of(false, 0, 0)),
        b.parts().1 >= 1 && b.parts().2 == 0 ==> r != None::<Amount>,
{
    let x = rust_decimal::Decimal::from_parts(a.mantissa as u32, (a.mantissa >> 32) as u32, (a.mantissa >> 64) as u32, a.negative, a.scale);
    let y = rust_decimal::Decimal::from_parts(b.mantissa as u32, (b.mantissa >> 32) as u32, (b.mantissa >> 64) as u32, b.negative, b.scale);
    x.checked_div(y).map(|d| Amount { negative: d.is_sign_negative(), mantissa: d.mantissa().unsigned_abs(), scale: d.scale() })
}

/// The greater of two amounts, as `Ord::max` picks it: the second when
/// they are equal in value.
pub fn max_amount(a: Amount, b: Amount) -> (r: Amount)
    ensures
        r == if value_order(a.parts(), b.parts()) <= 0 {
            b
        } else {
            a
        },
{
    if compare_amounts(&a, &b) <= 0 {
        b
    } else {
        a
    }
}

/// `a` held within `[low, high]`, as `Ord::clamp` does it: `low` below it,
/// `high` above it, `a` itself within. The bounds must be in order.
pub fn clamp_amount(a: Amount, low: Amount, high: Amount) -> (r: Amount)
    requires
        value_order(low.parts(), high.parts()) <= 0,
    ensures
        r == if value_order(a.parts(), low.parts()) < 0 {
            low
        } else if value_order(a.parts(), high.parts()) > 0 {
            high
        } else {
            a
        },
{
    if compare_amounts(&a, &low) < 0 {
        low
    } else if compare_amounts(&a, &high) > 0 {
        high
    } else {
        a
    }
}

} // verus!
