//! Prices and quantities in fixed point, built by `nautilus_model`.

use core::str::FromStr;
use vstd::prelude::*;

use crate::decimal;
use crate::decimal::Decimal;

verus! {

/// Decimal places of a raw value.
pub const FIXED_PRECISION: u8 = 9;

/// Largest magnitude of a raw price.
pub const PRICE_RAW_MAX: i64 = 9_223_372_036_000_000_000;

/// Largest raw quantity.
pub const QUANTITY_RAW_MAX: u64 = 18_446_744_072_999_999_488;

/// A price: `raw / 10^9`, a multiple of `10^-precision`.
#[derive(Clone, Copy, Debug, PartialEq, Eq, Structural)]
pub struct Price {
    pub raw: i64,
    pub precision: u8,
}

/// A quantity: `raw / 10^9`, a multiple of `10^-precision`.
#[derive(Clone, Copy, Debug, PartialEq, Eq, Structural)]
pub struct Quantity {
    pub raw: u64,
    pub precision: u8,
}

/// Raw units in the last place of a value with `precision` places.
pub open spec fn raw_unit(precision: int) -> int {
    decimal::pow10((FIXED_PRECISION - precision) as nat)
}

/// A decimal in raw units, rounded to `precision` places, the even value of two equally near.
pub open spec fn fixed_raw(d: Decimal, precision: int) -> int {
    if d.scale > precision {
        decimal::round_half_even(d.mantissa as int, decimal::pow10((d.scale - precision) as nat))
            * raw_unit(precision)
    } else {
        d.mantissa * decimal::pow10((FIXED_PRECISION - d.scale) as nat)
    }
}

/// The price of a decimal at `precision` places, where there is one.
pub open spec fn price_of(d: Decimal, precision: u8) -> Option<Price> {
    let raw = fixed_raw(d, precision as int);
    if precision <= FIXED_PRECISION && -PRICE_RAW_MAX <= raw <= PRICE_RAW_MAX {
        Some(Price { raw: raw as i64, precision })
    } else {
        None
    }
}

/// The quantity of a decimal at `precision` places, where there is one.
pub open spec fn quantity_of(d: Decimal, precision: u8) -> Option<Quantity> {
    let raw = fixed_raw(d, precision as int);
    if d.mantissa >= 0 && precision <= FIXED_PRECISION && raw <= QUANTITY_RAW_MAX {
        Some(Quantity { raw: raw as u64, precision })
    } else {
        None
    }
}

/// What `nautilus_model` reads from a text as a quantity: raw value and precision, or nothing.
pub uninterp spec fn parsed_quantity(text: Seq<char>) -> Option<(u64, u8)>;

/// What `nautilus_model` reads from a text as a price: raw value and precision, or nothing.
pub uninterp spec fn parsed_price(text: Seq<char>) -> Option<(i64, u8)>;

/// Raw value and precision of a price, where there is one.
pub open spec fn price_parts(p: Option<Price>) -> Option<(i64, u8)> {
    match p {
        Some(p) => Some((p.raw, p.precision)),
        None => None,
    }
}

/// The price of a plain decimal text, where there is one.
pub open spec fn plain_price(whole: Seq<char>, frac: Seq<char>) -> Option<Price> {
    let (mantissa, scale) = decimal::plain_parts(whole, frac);
    price_of(Decimal { mantissa, scale }, scale as u8)
}

/// How `nautilus_model` says that a decimal is no price.
pub uninterp spec fn price_refusal(mantissa: i128, scale: u32, precision: u8) -> Seq<char>;

/// How `nautilus_model` says that a decimal is no quantity.
pub uninterp spec fn quantity_refusal(mantissa: i128, scale: u32, precision: u8) -> Seq<char>;

/// `nautilus_model::types::Price::from_str`.
///
/// The result depends on the text alone, and is valid. A plain decimal text gives the price of its
/// value with as many places as are written. What other accepted texts give (signs, `_`,
/// exponents, more digits) is only named.
#[verifier::external_body]
fn price_text_outside(text: &str) -> (r: Result<Price, String>)
    ensures
        price_parts(success(r)) == parsed_price(text@),
        r is Ok ==> r->Ok_0.valid(),
        forall|whole: Seq<char>, frac: Seq<char>| #[trigger]
            decimal::plain_form(text@, whole, frac) ==> success(r) == plain_price(whole, frac),
{
    let price = nautilus_model::types::Price::from_str(text)?;
    Ok(Price { raw: price.raw, precision: price.precision })
}

/// The value of a successful call.
pub open spec fn success<T, E>(r: Result<T, E>) -> Option<T> {
    match r {
        Ok(value) => Some(value),
        Err(_) => None,
    }
}

/// Raw value and precision of a quantity, where there is one.
pub open spec fn quantity_parts(q: Option<Quantity>) -> Option<(u64, u8)> {
    match q {
        Some(q) => Some((q.raw, q.precision)),
        None => None,
    }
}

/// `nautilus_model::types::Price::from_decimal_dp`: rounds to `precision` places, half to even.
///
/// Fails where the precision is above nine places or the raw value is out of range. How the error
/// reads depends on the arguments alone, and is only named.
#[verifier::external_body]
fn price_outside(d: Decimal, precision: u8) -> (r: Result<Price, String>)
    requires
        d.valid(),
    ensures
        success(r) == price_of(d, precision),
        r is Err ==> r->Err_0@ == price_refusal(d.mantissa, d.scale, precision),
{
    let value = rust_decimal::Decimal::from_i128_with_scale(d.mantissa, d.scale);
    let price = nautilus_model::types::Price::from_decimal_dp(value, precision).map_err(
        |e| e.to_string(),
    )?;
    Ok(Price { raw: price.raw, precision: price.precision })
}

/// `nautilus_model::types::Quantity::from_decimal_dp`: rounds to `precision` places, half to even.
///
/// Fails where the value is negative, the precision is above nine places or the raw value is out
/// of range. How the error reads depends on the arguments alone, and is only named.
#[verifier::external_body]
fn quantity_outside(d: Decimal, precision: u8) -> (r: Result<Quantity, String>)
    requires
        d.valid(),
    ensures
        success(r) == quantity_of(d, precision),
        r is Err ==> r->Err_0@ == quantity_refusal(d.mantissa, d.scale, precision),
{
    let value = rust_decimal::Decimal::from_i128_with_scale(d.mantissa, d.scale);
    let quantity = nautilus_model::types::Quantity::from_decimal_dp(value, precision).map_err(
        |e| e.to_string(),
    )?;
    Ok(Quantity { raw: quantity.raw, precision: quantity.precision })
}

/// `nautilus_model::types::Quantity::from_str`.
///
/// The result depends on the text alone, and is valid. A plain decimal text gives the quantity of
/// its value with as many places as are written. What other accepted texts give (signs, `_`,
/// exponents, more digits) is only named.
#[verifier::external_body]
fn quantity_text_outside(text: &str) -> (r: Result<Quantity, String>)
    ensures
        quantity_parts(success(r)) == parsed_quantity(text@),
        r is Ok ==> r->Ok_0.valid(),
        forall|whole: Seq<char>, frac: Seq<char>| #[trigger]
            decimal::plain_form(text@, whole, frac) ==> success(r) == plain_quantity(whole, frac),
{
    let quantity = nautilus_model::types::Quantity::from_str(text)?;
    Ok(Quantity { raw: quantity.raw, precision: quantity.precision })
}

/// The quantity of a plain decimal text, where there is one.
pub open spec fn plain_quantity(whole: Seq<char>, frac: Seq<char>) -> Option<Quantity> {
    let (mantissa, scale) = decimal::plain_parts(whole, frac);
    quantity_of(Decimal { mantissa, scale }, scale as u8)
}

impl Price {
    /// In range, and a multiple of its last place.
    pub open spec fn valid(self) -> bool {
        &&& self.precision <= FIXED_PRECISION
        &&& -PRICE_RAW_MAX <= self.raw <= PRICE_RAW_MAX
        &&& self.raw as int % raw_unit(self.precision as int) == 0
    }

    /// The decimal with the price's value and precision.
    pub open spec fn decimal(self) -> Decimal {
        Decimal {
            mantissa: (self.raw as int / raw_unit(self.precision as int)) as i128,
            scale: self.precision as u32,
        }
    }

    /// The price of a decimal, rounded to `precision` places.
    pub fn from_decimal_dp(d: Decimal, precision: u8) -> (r: Result<Price, String>)
        requires
            d.valid(),
        ensures
            success(r) == price_of(d, precision),
            r matches Ok(p) ==> p.valid(),
            r matches Err(cause) ==> cause@ == price_refusal(d.mantissa, d.scale, precision),
    {
        let r = price_outside(d, precision);
        proof {
            if r is Ok {
                lemma_fixed_raw_divides(d, precision as int);
            }
        }
        r
    }

    /// The price of a decimal, with its places.
    pub fn from_decimal(d: Decimal) -> (r: Result<Price, String>)
        requires
            d.valid(),
        ensures
            success(r) == price_of(d, d.scale as u8),
            r matches Ok(p) ==> p.valid(),
            r matches Err(cause) ==> cause@ == price_refusal(d.mantissa, d.scale, d.scale as u8),
    {
        Price::from_decimal_dp(d, d.scale as u8)
    }

    /// The price that a text writes, with as many places as are written.
    pub fn parse(text: &str) -> (r: Option<Price>)
        ensures
            price_parts(r) == parsed_price(text@),
            r matches Some(p) ==> p.valid(),
            forall|whole: Seq<char>, frac: Seq<char>| #[trigger]
                decimal::plain_form(text@, whole, frac) ==> r == plain_price(whole, frac),
    {
        match price_text_outside(text) {
            Ok(price) => Some(price),
            Err(_) => None,
        }
    }

    /// The decimal with the price's value and precision.
    pub fn as_decimal(&self) -> (r: Decimal)
        requires
            self.valid(),
        ensures
            r == self.decimal(),
            r.valid(),
            r.mantissa * raw_unit(self.precision as int) == self.raw,
            price_of(r, self.precision) == Some(*self),
    {
        let unit: i128 = decimal::power_of_ten((FIXED_PRECISION - self.precision) as u32);
        proof {
            lemma_exact_division(self.raw as int, unit as int);
        }
        let negative: bool = self.raw < 0;
        let magnitude: i128 = if negative {
            -(self.raw as i128)
        } else {
            self.raw as i128
        };
        proof {
            lemma_exact_division(magnitude as int, unit as int);
        }
        let places: i128 = magnitude / unit;
        proof {
            lemma_quotient_bound(magnitude as int, unit as int);
        }
        let mantissa: i128 = if negative {
            -places
        } else {
            places
        };
        Decimal { mantissa, scale: self.precision as u32 }
    }
}

impl Quantity {
    /// In range, and a multiple of its last place.
    pub open spec fn valid(self) -> bool {
        &&& self.precision <= FIXED_PRECISION
        &&& self.raw <= QUANTITY_RAW_MAX
        &&& self.raw as int % raw_unit(self.precision as int) == 0
    }

    /// The decimal with the quantity's value and precision.
    pub open spec fn decimal(self) -> Decimal {
        Decimal {
            mantissa: (self.raw as int / raw_unit(self.precision as int)) as i128,
            scale: self.precision as u32,
        }
    }

    /// The quantity of a decimal, rounded to `precision` places.
    pub fn from_decimal_dp(d: Decimal, precision: u8) -> (r: Result<Quantity, String>)
        requires
            d.valid(),
        ensures
            success(r) == quantity_of(d, precision),
            r matches Ok(q) ==> q.valid(),
            r matches Err(cause) ==> cause@ == quantity_refusal(d.mantissa, d.scale, precision),
    {
        let r = quantity_outside(d, precision);
        proof {
            if r is Ok {
                lemma_fixed_raw_divides(d, precision as int);
                lemma_fixed_raw_sign(d, precision as int);
            }
        }
        r
    }

    /// The quantity of a decimal, with its places.
    pub fn from_decimal(d: Decimal) -> (r: Result<Quantity, String>)
        requires
            d.valid(),
        ensures
            success(r) == quantity_of(d, d.scale as u8),
            r matches Ok(q) ==> q.valid(),
            r matches Err(cause) ==> cause@ == quantity_refusal(d.mantissa, d.scale, d.scale as u8),
    {
        Quantity::from_decimal_dp(d, d.scale as u8)
    }

    /// The quantity that a text writes, with as many places as are written.
    pub fn parse(text: &str) -> (r: Option<Quantity>)
        ensures
            quantity_parts(r) == parsed_quantity(text@),
            r matches Some(q) ==> q.valid(),
            forall|whole: Seq<char>, frac: Seq<char>| #[trigger]
                decimal::plain_form(text@, whole, frac) ==> r == plain_quantity(whole, frac),
    {
        match quantity_text_outside(text) {
            Ok(quantity) => Some(quantity),
            Err(_) => None,
        }
    }

    /// The decimal with the quantity's value and precision.
    pub fn as_decimal(&self) -> (r: Decimal)
        requires
            self.valid(),
        ensures
            r == self.decimal(),
            r.valid(),
            r.mantissa * raw_unit(self.precision as int) == self.raw,
            quantity_of(r, self.precision) == Some(*self),
    {
        let unit: i128 = decimal::power_of_ten((FIXED_PRECISION - self.precision) as u32);
        proof {
            lemma_exact_division(self.raw as int, unit as int);
            lemma_quotient_bound(self.raw as int, unit as int);
        }
        let mantissa: i128 = (self.raw as i128) / unit;
        Decimal { mantissa, scale: self.precision as u32 }
    }

    pub fn is_zero(&self) -> (r: bool)
        ensures
            r == (self.raw == 0),
    {
        self.raw == 0
    }

    pub fn is_positive(&self) -> (r: bool)
        ensures
            r == (self.raw > 0),
    {
        self.raw > 0
    }
}

/// Division without remainder.
pub proof fn lemma_exact_division(n: int, d: int)
    requires
        d > 0,
    ensures
        n % d == 0 ==> (n / d) * d == n,
        n % d == 0 <==> (-n) % d == 0,
        n % d == 0 ==> (-n) / d == -(n / d),
{
    let q = n / d;
    let r = n % d;
    let p = (-n) / d;
    let s = (-n) % d;
    assert(n == d * q + r && 0 <= r < d && -n == d * p + s && 0 <= s < d) by (nonlinear_arith)
        requires
            d > 0,
            q == n / d,
            r == n % d,
            p == (-n) / d,
            s == (-n) % d,
    ;
    let k = q + p;
    assert(d * k + r + s == 0) by (nonlinear_arith)
        requires
            n == d * q + r,
            -n == d * p + s,
            k == q + p,
    ;
    if r == 0 || s == 0 {
        assert(k == 0) by (nonlinear_arith)
            requires
                d * k + r + s == 0,
                0 <= r < d,
                0 <= s < d,
                r == 0 || s == 0,
        ;
        assert(d * k == 0) by (nonlinear_arith)
            requires
                k == 0,
        ;
    }
    assert(q * d == d * q) by (nonlinear_arith);
}

pub proof fn lemma_quotient_bound(n: int, d: int)
    requires
        d > 0,
        n >= 0,
    ensures
        0 <= n / d <= n,
{
    assert(0 <= n / d <= n) by (nonlinear_arith)
        requires
            d > 0,
            n >= 0,
    ;
}

/// A raw value at `precision` places is a multiple of its last place.
proof fn lemma_fixed_raw_divides(d: Decimal, precision: int)
    requires
        0 <= precision <= FIXED_PRECISION,
    ensures
        fixed_raw(d, precision) % raw_unit(precision) == 0,
{
    let unit = raw_unit(precision);
    decimal::lemma_pow10_positive((FIXED_PRECISION - precision) as nat);
    let n = if d.scale > precision {
        decimal::round_half_even(d.mantissa as int, decimal::pow10((d.scale - precision) as nat))
    } else {
        let more = decimal::pow10((precision - d.scale) as nat);
        decimal::lemma_pow10_adds(
            (precision - d.scale) as nat,
            (FIXED_PRECISION - precision) as nat,
        );
        assert(d.mantissa * (more * unit) == (d.mantissa * more) * unit) by (nonlinear_arith);
        d.mantissa * more
    };
    assert(fixed_raw(d, precision) == n * unit);
    assert((n * unit) % unit == 0) by (nonlinear_arith)
        requires
            unit > 0,
    ;
}

/// The raw value of `n` millionths, at six places.
pub proof fn lemma_millionths(d: Decimal, n: int)
    requires
        d.is_ratio(n, 1_000_000),
    ensures
        fixed_raw(d, 6) == n * 1_000,
{
    decimal::lemma_pow10_values();
    let m = d.mantissa as int;
    let s = d.scale as nat;
    if s > 6 {
        let over = decimal::pow10((s - 6) as nat);
        decimal::lemma_pow10_adds(6, (s - 6) as nat);
        decimal::lemma_pow10_positive((s - 6) as nat);
        assert(m == n * over) by (nonlinear_arith)
            requires
                m * 1_000_000 == n * (1_000_000 * over),
        ;
        assert((n * over) / over == n && (n * over) % over == 0) by {
            vstd::arithmetic::div_mod::lemma_div_multiples_vanish(n, over);
            vstd::arithmetic::div_mod::lemma_mod_multiples_basic(n, over);
            vstd::arithmetic::mul::lemma_mul_is_commutative(n, over);
        }
    } else {
        let up = decimal::pow10((9 - s) as nat);
        let unit = decimal::pow10(s);
        decimal::lemma_pow10_adds(s, (9 - s) as nat);
        decimal::lemma_pow10_positive(s);
        assert(m * up == n * 1_000) by (nonlinear_arith)
            requires
                m * 1_000_000 == n * unit,
                unit * up == 1_000_000_000,
                unit > 0,
        ;
    }
}

/// A raw value of a number that is not negative is not negative.
proof fn lemma_fixed_raw_sign(d: Decimal, precision: int)
    requires
        0 <= precision <= FIXED_PRECISION,
        d.mantissa >= 0,
    ensures
        fixed_raw(d, precision) >= 0,
{
    decimal::lemma_pow10_positive((FIXED_PRECISION - precision) as nat);
    if d.scale > precision {
        let over = decimal::pow10((d.scale - precision) as nat);
        decimal::lemma_pow10_positive((d.scale - precision) as nat);
        assert(d.mantissa as int / over >= 0) by (nonlinear_arith)
            requires
                over > 0,
                d.mantissa >= 0,
        ;
        let n = decimal::round_half_even(d.mantissa as int, over);
        assert(n * raw_unit(precision) >= 0) by (nonlinear_arith)
            requires
                n >= 0,
                raw_unit(precision) > 0,
        ;
    } else {
        decimal::lemma_pow10_positive((FIXED_PRECISION - d.scale) as nat);
        let k = decimal::pow10((FIXED_PRECISION - d.scale) as nat);
        assert(d.mantissa * k >= 0) by (nonlinear_arith)
            requires
                k > 0,
                d.mantissa >= 0,
        ;
    }
}

/// A quantity brought to `precision` places moves by at most half of the last place, and not at all
/// where it has no more places.
pub proof fn lemma_realigned(q: Quantity, precision: int)
    requires
        q.valid(),
        0 <= precision <= FIXED_PRECISION,
    ensures
        q.decimal().mantissa >= 0,
        fixed_raw(q.decimal(), precision) >= 0,
        q.precision <= precision ==> fixed_raw(q.decimal(), precision) == q.raw,
        -raw_unit(precision) <= 2 * (fixed_raw(q.decimal(), precision) - q.raw) <= raw_unit(
            precision,
        ),
        2 * q.raw < raw_unit(precision) ==> fixed_raw(q.decimal(), precision) == 0,
{
    let p = q.precision as int;
    let unit = raw_unit(p);
    let place = raw_unit(precision);
    decimal::lemma_pow10_positive((FIXED_PRECISION - p) as nat);
    decimal::lemma_pow10_positive((FIXED_PRECISION - precision) as nat);
    lemma_exact_division(q.raw as int, unit);
    lemma_quotient_bound(q.raw as int, unit);
    let m = q.raw as int / unit;
    lemma_fixed_raw_sign(q.decimal(), precision);
    if p > precision {
        let over = decimal::pow10((p - precision) as nat);
        decimal::lemma_pow10_positive((p - precision) as nat);
        decimal::lemma_pow10_adds((p - precision) as nat, (FIXED_PRECISION - p) as nat);
        assert(place == over * unit);
        let a = m / over;
        let b = m % over;
        assert(m == over * a + b && 0 <= b < over) by (nonlinear_arith)
            requires
                over > 0,
                a == m / over,
                b == m % over,
        ;
        let n = decimal::round_half_even(m, over);
        assert(-over <= 2 * (n * over - m) <= over) by {
            assert(a * over == over * a && (a + 1) * over == over * a + over) by (nonlinear_arith);
        }
        assert(2 * (n * place - m * unit) <= place && -place <= 2 * (n * place - m * unit))
            by (nonlinear_arith)
            requires
                -over <= 2 * (n * over - m) <= over,
                place == over * unit,
                unit > 0,
        ;
    }
    lemma_fixed_raw_divides(q.decimal(), precision);
    if 2 * q.raw < place {
        vstd::arithmetic::div_mod::lemma_small_mod(
            fixed_raw(q.decimal(), precision) as nat,
            place as nat,
        );
    }
}

} // verus!
