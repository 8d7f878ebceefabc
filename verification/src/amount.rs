//! Decimal amounts of money.
//!
//! An [`Amount`] holds, as plain values, the parts of a `rust_decimal::Decimal`:
//! its sign bit, its 96-bit magnitude and its scale (the number of digits after
//! the decimal point). Every computation on amounts is made by `rust_decimal`
//! itself, through the trusted wrappers of this module.
use rust_decimal::Decimal;
use vstd::prelude::*;
use vstd::std_specs::cmp::PartialEqSpecImpl;
use vstd::std_specs::convert::FromSpecImpl;

verus! {

/// The largest scale a decimal amount can have.
pub const MAX_SCALE: u32 = 28;

/// Magnitudes of decimal amounts stay below 2^96.
pub open spec fn mantissa_bound() -> int {
    0x1_0000_0000_0000_0000_0000_0000
}

/// Ten to the power `n`.
pub open spec fn pow10(n: nat) -> nat
    decreases n,
{
    if n == 0 {
        1
    } else {
        10 * pow10((n - 1) as nat)
    }
}

/// The absolute value of an integer.
pub open spec fn abs(x: int) -> int {
    if x < 0 {
        -x
    } else {
        x
    }
}

/// A decimal amount: `(-1)^negative * magnitude / 10^scale`.
#[derive(Clone, Copy, Debug)]
pub struct Amount {
    pub(crate) negative: bool,
    pub(crate) magnitude: u128,
    pub(crate) scale: u32,
}

impl Amount {
    /// Every amount is a valid decimal.
    #[verifier::type_invariant]
    pub(crate) open spec fn well_formed(self) -> bool {
        self.valid_decimal()
    }

    /// The parts make a valid decimal: a 96-bit magnitude and a scale of at most 28.
    pub open spec fn valid_decimal(self) -> bool {
        &&& self.digits() < mantissa_bound()
        &&& self.exponent() <= MAX_SCALE
    }

    /// The sign bit (a zero may carry either sign).
    pub open(crate) spec fn sign_bit(self) -> bool {
        self.negative
    }

    /// The magnitude of the mantissa.
    pub open(crate) spec fn digits(self) -> nat {
        self.magnitude as nat
    }

    /// The number of digits after the decimal point.
    pub open(crate) spec fn exponent(self) -> nat {
        self.scale as nat
    }

    /// The signed mantissa.
    pub open spec fn signed_mantissa(self) -> int {
        if self.sign_bit() {
            -(self.digits() as int)
        } else {
            self.digits() as int
        }
    }

    /// The value of the amount, counted in units of 10^-28.
    pub open spec fn units(self) -> int {
        self.signed_mantissa() * pow10((MAX_SCALE - self.exponent()) as nat)
    }

    /// The amount with the given sign, magnitude and scale.
    pub open(crate) spec fn from_parts_spec(negative: bool, magnitude: u128, scale: u32) -> Amount {
        Amount { negative, magnitude, scale }
    }

    /// The amount with the sign bit flipped.
    pub open(crate) spec fn negated(self) -> Amount {
        Amount { negative: !self.negative, magnitude: self.magnitude, scale: self.scale }
    }

    /// Zero, as `Decimal::ZERO` holds it.
    pub open spec fn zero_spec() -> Amount {
        Amount::from_parts_spec(false, 0, 0)
    }
}

/// Zero is worth nothing.
pub proof fn lemma_zero_units()
    ensures
        Amount::zero_spec().units() == 0,
{
    vstd::arithmetic::mul::lemma_mul_basics(pow10(28) as int);
}

/// Zero is a valid decimal.
pub proof fn lemma_zero_valid()
    ensures
        Amount::zero_spec().valid_decimal(),
{
}

/// Flipping the sign bit negates the value.
pub proof fn lemma_negated_units(a: Amount)
    ensures
        a.negated().units() == -a.units(),
{
    vstd::arithmetic::mul::lemma_mul_unary_negation(
        a.signed_mantissa(),
        pow10((MAX_SCALE - a.exponent()) as nat) as int,
    );
}

/// The larger of the two scales: the scale at which a sum or difference is computed.
pub open spec fn common_scale(a: Amount, b: Amount) -> nat {
    if a.exponent() >= b.exponent() {
        a.exponent()
    } else {
        b.exponent()
    }
}

/// An exact value, in units of 10^-28, has a 96-bit mantissa at the given scale.
pub open spec fn fits_at_scale(units: int, scale: nat) -> bool {
    abs(units) < mantissa_bound() * pow10((MAX_SCALE - scale) as nat)
}

/// An exact value, in units of 10^-28, is a decimal with a 96-bit mantissa at the
/// given scale: a whole number of 10^-scale that fits.
pub open spec fn representable_at(units: int, scale: nat) -> bool {
    &&& units % (pow10((MAX_SCALE - scale) as nat) as int) == 0
    &&& fits_at_scale(units, scale)
}

/// An exact value is a decimal at some scale no larger than `scale`.
pub open spec fn representable_within(units: int, scale: nat) -> bool {
    exists|s: nat| s <= scale && #[trigger] representable_at(units, s)
}

/// Ten to any power is positive.
pub proof fn lemma_pow10_positive(n: nat)
    ensures
        pow10(n) >= 1,
    decreases n,
{
    if n > 0 {
        lemma_pow10_positive((n - 1) as nat);
    }
}

/// A valid decimal is a decimal at its own scale.
pub proof fn lemma_representable_at_own_scale(a: Amount)
    requires
        a.valid_decimal(),
    ensures
        representable_at(a.units(), a.exponent()),
{
    let p = pow10((MAX_SCALE - a.exponent()) as nat) as int;
    lemma_pow10_positive((MAX_SCALE - a.exponent()) as nat);
    vstd::arithmetic::div_mod::lemma_mod_multiples_basic(a.signed_mantissa(), p);
    vstd::arithmetic::mul::lemma_mul_strict_inequality(a.digits() as int, mantissa_bound(), p);
    vstd::arithmetic::mul::lemma_mul_unary_negation(a.digits() as int, p);
}

/// A zero magnitude is worth nothing, whatever the sign and scale.
pub proof fn lemma_zero_digits_units(a: Amount)
    requires
        a.digits() == 0,
    ensures
        a.units() == 0,
{
    vstd::arithmetic::mul::lemma_mul_basics(pow10((MAX_SCALE - a.exponent()) as nat) as int);
}

/// Zero is a decimal at every scale.
pub proof fn lemma_zero_representable(scale: nat)
    requires
        scale <= MAX_SCALE,
    ensures
        representable_at(0, scale),
{
    lemma_pow10_positive((MAX_SCALE - scale) as nat);
    vstd::arithmetic::div_mod::lemma_mod_multiples_basic(0, pow10((MAX_SCALE - scale) as nat) as int);
}

/// What `Decimal::checked_add` returns for two decimals.
pub uninterp spec fn decimal_sum(a: Amount, b: Amount) -> Option<Amount>;

/// What `Decimal::checked_sub` returns for two decimals.
pub uninterp spec fn decimal_difference(a: Amount, b: Amount) -> Option<Amount>;

/// `Decimal::from_i128_with_scale` then `set_sign_negative` turn the parts back into a
/// `Decimal`; `is_sign_negative`, `mantissa` and `scale` take them out again.
/// The wrapper calls `Decimal::checked_add`. It claims that the result is
/// `decimal_sum` of the arguments, that a returned decimal is valid, and that when
/// the exact sum is a decimal at the larger of the two scales or at a smaller one
/// the call returns it without rounding (at the larger scale itself where it fits
/// there and neither operand is zero); that adding a zero to a non-zero decimal
/// gives it back; and that the result never has more digits after the point than
/// the larger scale. Not stated: how the sum is rounded otherwise, nor on which
/// inputs `None` (overflow) comes back.
#[verifier::external_body]
pub(crate) fn checked_add(a: Amount, b: Amount) -> (r: Option<Amount>)
    requires
        a.well_formed(),
        b.well_formed(),
    ensures
        r == decimal_sum(a, b),
        r matches Some(s) ==> s.well_formed(),
        r matches Some(s) ==> s.exponent() <= common_scale(a, b),
        fits_at_scale(a.units() + b.units(), common_scale(a, b)) ==> r is Some,
        fits_at_scale(a.units() + b.units(), common_scale(a, b)) ==> r->0.units() == a.units() + b.units(),
        fits_at_scale(a.units() + b.units(), common_scale(a, b)) ==> r->0.exponent() == common_scale(a, b)
            || a.digits() == 0 || b.digits() == 0,
        representable_within(a.units() + b.units(), common_scale(a, b)) ==> r is Some,
        representable_within(a.units() + b.units(), common_scale(a, b)) ==> r->0.units() == a.units() + b.units(),
        b.digits() == 0 && a.digits() != 0 ==> r == Some(a),
{
    let mut x = Decimal::from_i128_with_scale(a.magnitude as i128, a.scale);
    x.set_sign_negative(a.negative);
    let mut y = Decimal::from_i128_with_scale(b.magnitude as i128, b.scale);
    y.set_sign_negative(b.negative);
    x.checked_add(y).map(
        |d: Decimal|
            Amount { negative: d.is_sign_negative(), magnitude: d.mantissa().unsigned_abs(), scale: d.scale() },
    )
}

/// Calls `Decimal::checked_sub` (parts converted as for `checked_add`). It claims
/// that the result is `decimal_difference` of the arguments, that a returned
/// decimal is valid, and that when the exact difference is a decimal at the larger
/// of the two scales or at a smaller one the call returns it without rounding (at
/// the larger scale itself where it fits there and neither operand is zero); that
/// taking a zero from a non-zero decimal gives it back; and that the result never
/// has more digits after the point than the larger scale. Not stated: how the
/// difference is rounded otherwise, nor on which inputs `None` comes back.
#[verifier::external_body]
pub(crate) fn checked_sub(a: Amount, b: Amount) -> (r: Option<Amount>)
    requires
        a.well_formed(),
        b.well_formed(),
    ensures
        r == decimal_difference(a, b),
        r matches Some(s) ==> s.well_formed(),
        r matches Some(s) ==> s.exponent() <= common_scale(a, b),
        fits_at_scale(a.units() - b.units(), common_scale(a, b)) ==> r is Some,
        fits_at_scale(a.units() - b.units(), common_scale(a, b)) ==> r->0.units() == a.units() - b.units(),
        fits_at_scale(a.units() - b.units(), common_scale(a, b)) ==> r->0.exponent() == common_scale(a, b)
            || a.digits() == 0 || b.digits() == 0,
        representable_within(a.units() - b.units(), common_scale(a, b)) ==> r is Some,
        representable_within(a.units() - b.units(), common_scale(a, b)) ==> r->0.units() == a.units() - b.units(),
        b.digits() == 0 && a.digits() != 0 ==> r == Some(a),
{
    let mut x = Decimal::from_i128_with_scale(a.magnitude as i128, a.scale);
    x.set_sign_negative(a.negative);
    let mut y = Decimal::from_i128_with_scale(b.magnitude as i128, b.scale);
    y.set_sign_negative(b.negative);
    x.checked_sub(y).map(
        |d: Decimal|
            Amount { negative: d.is_sign_negative(), magnitude: d.mantissa().unsigned_abs(), scale: d.scale() },
    )
}

/// The negation of an amount, as `Neg` on a `Decimal` computes it: the sign bit
/// flips, magnitude and scale stay as they were.
pub(crate) fn negate(a: Amount) -> (r: Amount)
    ensures
        r == a.negated(),
{
    proof {
        use_type_invariant(&a);
    }
    Amount { negative: !a.negative, magnitude: a.magnitude, scale: a.scale }
}

/// Calls `<` on two `Decimal`s. Claims that it compares their values.
#[verifier::external_body]
pub(crate) fn less_than(a: Amount, b: Amount) -> (r: bool)
    requires
        a.well_formed(),
        b.well_formed(),
    ensures
        r == (a.units() < b.units()),
{
    let mut x = Decimal::from_i128_with_scale(a.magnitude as i128, a.scale);
    x.set_sign_negative(a.negative);
    let mut y = Decimal::from_i128_with_scale(b.magnitude as i128, b.scale);
    y.set_sign_negative(b.negative);
    x < y
}

/// Calls `==` on two `Decimal`s. Claims that it compares their values, so that
/// amounts of different scales (`1.0` and `1`) and zeros of either sign are equal.
#[verifier::external_body]
pub(crate) fn equal_values(a: Amount, b: Amount) -> (r: bool)
    requires
        a.well_formed(),
        b.well_formed(),
    ensures
        r == (a.units() == b.units()),
{
    let mut x = Decimal::from_i128_with_scale(a.magnitude as i128, a.scale);
    x.set_sign_negative(a.negative);
    let mut y = Decimal::from_i128_with_scale(b.magnitude as i128, b.scale);
    y.set_sign_negative(b.negative);
    x == y
}

/// The magnitude of a 64-bit integer.
fn magnitude_of(num: i64) -> (r: u128)
    ensures
        r == abs(num as int),
{
    if num < 0 {
        (0i128 - num as i128) as u128
    } else {
        num as u128
    }
}

impl Amount {
    /// Zero (scale 0, positive sign), the default of a decimal.
    pub fn zero() -> (r: Amount)
        ensures
            r == Amount::zero_spec(),
            r.units() == 0,
    {
        proof {
            lemma_zero_units();
        }
        Amount { negative: false, magnitude: 0, scale: 0 }
    }

    /// The amount `num / 10^scale`, as `Decimal::new` makes it (which panics on a
    /// scale above 28).
    pub fn new(num: i64, scale: u32) -> (r: Amount)
        requires
            scale <= MAX_SCALE,
        ensures
            r.sign_bit() == (num < 0),
            r.digits() == abs(num as int),
            r.exponent() == scale,
            r.signed_mantissa() == num,
    {
        Amount { negative: num < 0, magnitude: magnitude_of(num), scale }
    }

    /// The amount with the given sign bit, magnitude and scale, or `None` where
    /// these are no valid decimal (a magnitude of 2^96 or more, a scale above 28).
    pub fn from_parts(negative: bool, magnitude: u128, scale: u32) -> (r: Option<Amount>)
        ensures
            r is Some <==> (magnitude < mantissa_bound() && scale <= MAX_SCALE),
            r matches Some(a) ==> a == Amount::from_parts_spec(negative, magnitude, scale),
    {
        if magnitude < 0x1_0000_0000_0000_0000_0000_0000 && scale <= MAX_SCALE {
            Some(Amount { negative, magnitude, scale })
        } else {
            None
        }
    }

    /// The sign bit.
    pub fn is_sign_negative(&self) -> (r: bool)
        ensures
            r == self.sign_bit(),
    {
        self.negative
    }

    /// The magnitude of the mantissa.
    pub fn magnitude(&self) -> (r: u128)
        ensures
            r == self.digits(),
            r < mantissa_bound(),
    {
        proof {
            use_type_invariant(self);
        }
        self.magnitude
    }

    /// The number of digits after the decimal point.
    pub fn scale(&self) -> (r: u32)
        ensures
            r == self.exponent(),
            r <= MAX_SCALE,
    {
        proof {
            use_type_invariant(self);
        }
        self.scale
    }
}

impl PartialEq for Amount {
    fn eq(&self, other: &Amount) -> (r: bool) {
        proof {
            use_type_invariant(self);
            use_type_invariant(other);
        }
        equal_values(*self, *other)
    }
}

impl PartialEqSpecImpl for Amount {
    open spec fn obeys_eq_spec() -> bool {
        true
    }

    open spec fn eq_spec(&self, other: &Amount) -> bool {
        self.units() == other.units()
    }
}

/// The amount of an integer, as `Decimal::from` makes it: the sign of `n`, its
/// absolute value, scale zero.
impl From<i32> for Amount {
    fn from(n: i32) -> (r: Amount) {
        Amount { negative: n < 0, magnitude: magnitude_of(n as i64), scale: 0 }
    }
}

impl FromSpecImpl<i32> for Amount {
    open spec fn obeys_from_spec() -> bool {
        true
    }

    open spec fn from_spec(n: i32) -> Amount {
        Amount::from_parts_spec(n < 0, abs(n as int) as u128, 0)
    }
}

} // verus!
