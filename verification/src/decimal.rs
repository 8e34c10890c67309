//! The arbitrary-precision decimal numbers that expressions evaluate to.
//!
//! A value is modelled by its constituent parts: a sign, a 96-bit integer
//! mantissa and a scale (the number of fractional digits). Those parts
//! determine the number completely, so every arithmetic result is a function
//! of the operands' parts alone. The arithmetic itself is carried out by
//! `rust_decimal`; each operation is named by an uninterpreted spec function
//! and reached through one trusted wrapper.

use rust_decimal::MathematicalOps;
use vstd::prelude::*;

verus! {

/// One decimal number, as sign, mantissa and scale: the value is
/// `mantissa / 10^scale`, negated when `neg` is set. A zero mantissa with
/// `neg` set is a negative zero, which renders with its sign.
#[derive(Clone, Copy, PartialEq, Eq, Structural, Debug)]
pub struct Dec {
    pub neg: bool,
    pub mantissa: u128,
    pub scale: u32,
}

impl Dec {
    /// The parts every representable decimal has: a mantissa below `2^96`
    /// and at most 28 fractional digits.
    pub open spec fn wf(self) -> bool {
        self.mantissa < 0x1000000000000000000000000 && self.scale <= 28
    }
}

/// What decimal text parses to: `Some` exactly on the strings the numeric
/// library accepts.
pub uninterp spec fn parse_of(s: Seq<char>) -> Option<Dec>;

/// The sum of two decimals, or `None` when it cannot be represented.
pub uninterp spec fn add_of(l: Dec, r: Dec) -> Option<Dec>;

/// The difference of two decimals, or `None` when it cannot be represented.
pub uninterp spec fn sub_of(l: Dec, r: Dec) -> Option<Dec>;

/// The product of two decimals, or `None` when it cannot be represented.
pub uninterp spec fn mul_of(l: Dec, r: Dec) -> Option<Dec>;

/// The quotient of two decimals: `None` on division by zero or overflow.
pub uninterp spec fn div_of(l: Dec, r: Dec) -> Option<Dec>;

/// The remainder of two decimals: `None` on a zero divisor or overflow.
pub uninterp spec fn rem_of(l: Dec, r: Dec) -> Option<Dec>;

/// The left decimal raised to the right one, or `None` when the power
/// cannot be computed or represented.
pub uninterp spec fn pow_of(l: Dec, r: Dec) -> Option<Dec>;

/// The decimal rounded to `dp` fractional digits, half to even.
pub uninterp spec fn round_of(d: Dec, dp: u32) -> Dec;

/// The canonical text of a decimal, trailing fractional zeros kept.
pub uninterp spec fn render_of(d: Dec) -> Seq<char>;

/// Relies on `rust_decimal`'s `FromStr` impl: total on any string, `Err` on
/// text the library rejects; the result depends on the characters alone.
#[verifier::external_body]
pub(crate) fn dec_parse(s: &str) -> (res: Option<Dec>)
    ensures
        res == parse_of(s@),
        (res matches Some(d) ==> d.wf()),
{
    match <rust_decimal::Decimal as core::str::FromStr>::from_str(s) {
        Ok(d) => Some(Dec { neg: d.is_sign_negative(), mantissa: d.mantissa().unsigned_abs(), scale: d.scale() }),
        Err(_) => None,
    }
}

/// Relies on `Decimal::checked_add`: `None` instead of a panic on overflow.
#[verifier::external_body]
pub(crate) fn dec_add(l: &Dec, r: &Dec) -> (res: Option<Dec>)
    requires
        l.wf(),
        r.wf(),
    ensures
        res == add_of(*l, *r),
        (res matches Some(d) ==> d.wf()),
{
    let mut a = rust_decimal::Decimal::from_i128_with_scale(l.mantissa as i128, l.scale);
    a.set_sign_negative(l.neg);
    let mut b = rust_decimal::Decimal::from_i128_with_scale(r.mantissa as i128, r.scale);
    b.set_sign_negative(r.neg);
    match a.checked_add(b) {
        Some(d) => Some(Dec { neg: d.is_sign_negative(), mantissa: d.mantissa().unsigned_abs(), scale: d.scale() }),
        None => None,
    }
}

/// Relies on `Decimal::checked_sub`: `None` instead of a panic on overflow.
#[verifier::external_body]
pub(crate) fn dec_sub(l: &Dec, r: &Dec) -> (res: Option<Dec>)
    requires
        l.wf(),
        r.wf(),
    ensures
        res == sub_of(*l, *r),
        (res matches Some(d) ==> d.wf()),
{
    let mut a = rust_decimal::Decimal::from_i128_with_scale(l.mantissa as i128, l.scale);
    a.set_sign_negative(l.neg);
    let mut b = rust_decimal::Decimal::from_i128_with_scale(r.mantissa as i128, r.scale);
    b.set_sign_negative(r.neg);
    match a.checked_sub(b) {
        Some(d) => Some(Dec { neg: d.is_sign_negative(), mantissa: d.mantissa().unsigned_abs(), scale: d.scale() }),
        None => None,
    }
}

/// Relies on `Decimal::checked_mul`: `None` instead of a panic on overflow.
#[verifier::external_body]
pub(crate) fn dec_mul(l: &Dec, r: &Dec) -> (res: Option<Dec>)
    requires
        l.wf(),
        r.wf(),
    ensures
        res == mul_of(*l, *r),
        (res matches Some(d) ==> d.wf()),
{
    let mut a = rust_decimal::Decimal::from_i128_with_scale(l.mantissa as i128, l.scale);
    a.set_sign_negative(l.neg);
    let mut b = rust_decimal::Decimal::from_i128_with_scale(r.mantissa as i128, r.scale);
    b.set_sign_negative(r.neg);
    match a.checked_mul(b) {
        Some(d) => Some(Dec { neg: d.is_sign_negative(), mantissa: d.mantissa().unsigned_abs(), scale: d.scale() }),
        None => None,
    }
}

/// Relies on `Decimal::checked_div`: `None` on a zero divisor or overflow.
#[verifier::external_body]
pub(crate) fn dec_div(l: &Dec, r: &Dec) -> (res: Option<Dec>)
    requires
        l.wf(),
        r.wf(),
    ensures
        res == div_of(*l, *r),
        (res matches Some(d) ==> d.wf()),
{
    let mut a = rust_decimal::Decimal::from_i128_with_scale(l.mantissa as i128, l.scale);
    a.set_sign_negative(l.neg);
    let mut b = rust_decimal::Decimal::from_i128_with_scale(r.mantissa as i128, r.scale);
    b.set_sign_negative(r.neg);
    match a.checked_div(b) {
        Some(d) => Some(Dec { neg: d.is_sign_negative(), mantissa: d.mantissa().unsigned_abs(), scale: d.scale() }),
        None => None,
    }
}

/// Relies on `Decimal::checked_rem`: `None` on a zero divisor or overflow.
#[verifier::external_body]
pub(crate) fn dec_rem(l: &Dec, r: &Dec) -> (res: Option<Dec>)
    requires
        l.wf(),
        r.wf(),
    ensures
        res == rem_of(*l, *r),
        (res matches Some(d) ==> d.wf()),
{
    let mut a = rust_decimal::Decimal::from_i128_with_scale(l.mantissa as i128, l.scale);
    a.set_sign_negative(l.neg);
    let mut b = rust_decimal::Decimal::from_i128_with_scale(r.mantissa as i128, r.scale);
    b.set_sign_negative(r.neg);
    match a.checked_rem(b) {
        Some(d) => Some(Dec { neg: d.is_sign_negative(), mantissa: d.mantissa().unsigned_abs(), scale: d.scale() }),
        None => None,
    }
}

/// Relies on `Decimal::checked_powd` of the `maths` feature: `None` when the
/// power overflows or cannot be computed.
#[verifier::external_body]
pub(crate) fn dec_pow(l: &Dec, r: &Dec) -> (res: Option<Dec>)
    requires
        l.wf(),
        r.wf(),
    ensures
        res == pow_of(*l, *r),
        (res matches Some(d) ==> d.wf()),
{
    let mut a = rust_decimal::Decimal::from_i128_with_scale(l.mantissa as i128, l.scale);
    a.set_sign_negative(l.neg);
    let mut b = rust_decimal::Decimal::from_i128_with_scale(r.mantissa as i128, r.scale);
    b.set_sign_negative(r.neg);
    match a.checked_powd(b) {
        Some(d) => Some(Dec { neg: d.is_sign_negative(), mantissa: d.mantissa().unsigned_abs(), scale: d.scale() }),
        None => None,
    }
}

/// Relies on `Decimal::round_dp`: rounds half to even, total for every `dp`.
#[verifier::external_body]
pub(crate) fn dec_round(d: &Dec, dp: u32) -> (res: Dec)
    requires
        d.wf(),
    ensures
        res == round_of(*d, dp),
        res.wf(),
{
    let mut a = rust_decimal::Decimal::from_i128_with_scale(d.mantissa as i128, d.scale);
    a.set_sign_negative(d.neg);
    let b = a.round_dp(dp);
    Dec { neg: b.is_sign_negative(), mantissa: b.mantissa().unsigned_abs(), scale: b.scale() }
}

/// Relies on `rust_decimal`'s `Display` impl: the canonical decimal text,
/// a function of the number's parts alone.
#[verifier::external_body]
pub(crate) fn dec_render(d: &Dec) -> (res: String)
    requires
        d.wf(),
    ensures
        res@ == render_of(*d),
{
    let mut a = rust_decimal::Decimal::from_i128_with_scale(d.mantissa as i128, d.scale);
    a.set_sign_negative(d.neg);
    a.to_string()
}

} // verus!
