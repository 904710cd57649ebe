//! Token amounts and limit prices in raw on-chain units.

use vstd::prelude::*;

use crate::common::consts::{DEFAULT_TICK_SIZE_RAW, TOKEN_SCALE};
use crate::decimal;
use crate::decimal::Decimal;
use crate::fixed;
use crate::fixed::{Price, Quantity, PRICE_RAW_MAX, QUANTITY_RAW_MAX};
use crate::params;
use crate::params::{ParamValue, Params};
use crate::text;

verus! {

/// How LightPool book / order prices are encoded for an instrument.
#[derive(Clone, Copy, Debug, PartialEq, Eq, Structural, Default)]
pub enum PriceUnit {
    /// Event binary markets: API cents string, probability in `[0, 1]`.
    #[default]
    Cents,
    /// Equity / currency-pair spots: human decimal (e.g. `331.5`).
    Decimal,
}

/// The price unit that the instrument parameters name: `price_unit=decimal`, else cents.
pub open spec fn unit_of(info: Option<Params>) -> PriceUnit {
    match params::param_text(info, "price_unit"@) {
        Some(unit) => if text::same_ignoring_case(unit, "decimal"@) {
            PriceUnit::Decimal
        } else {
            PriceUnit::Cents
        },
        None => PriceUnit::Cents,
    }
}

impl PriceUnit {
    pub fn from_info(info: Option<&Params>) -> (r: PriceUnit)
        ensures
            r == unit_of(params::owned(info)),
    {
        match params::text_param(info, "price_unit") {
            Some(unit) => if text::eq_ignore_ascii_case(unit, "decimal") {
                PriceUnit::Decimal
            } else {
                PriceUnit::Cents
            },
            None => PriceUnit::Cents,
        }
    }
}

/// Why an amount or a price was refused.
#[derive(Clone, Copy, Debug, PartialEq, Eq, Structural)]
pub enum AmountError {
    /// The amount is negative or too large.
    InvalidAmount,
    /// A probability below 0 or above 1.
    PriceOutOfRange,
    /// A decimal price of 0 or below.
    PriceNotPositive,
    /// No whole tick is left.
    PriceRoundsToZero,
}

impl AmountError {
    pub open spec fn text(self) -> Seq<char> {
        match self {
            AmountError::InvalidAmount => "invalid token amount"@,
            AmountError::PriceOutOfRange => "price must be between 0 and 1"@,
            AmountError::PriceNotPositive => "price must be positive"@,
            AmountError::PriceRoundsToZero => "price rounds to zero"@,
        }
    }

    /// The refusal in words.
    pub fn message(&self) -> (r: &'static str)
        ensures
            r@ == self.text(),
    {
        match self {
            AmountError::InvalidAmount => "invalid token amount",
            AmountError::PriceOutOfRange => "price must be between 0 and 1",
            AmountError::PriceNotPositive => "price must be positive",
            AmountError::PriceRoundsToZero => "price rounds to zero",
        }
    }
}

/// The raw amount of a decimal: the nearest integer to `mantissa / 10^scale` times the token
/// scale, as `rust_decimal` multiplies, where it is a `u64`.
pub open spec fn raw_amount(value: Decimal) -> Option<u64> {
    match decimal::decimal_product(value.mantissa, value.scale, 1_000_000, 0) {
        Some((m, s)) => in_u64(decimal::round_half_even(m as int, decimal::pow10(s as nat))),
        None => None,
    }
}

/// `n`, where it is a `u64`.
pub open spec fn in_u64(n: int) -> Option<u64> {
    if 0 <= n <= u64::MAX {
        Some(n as u64)
    } else {
        None
    }
}

pub open spec fn amount_or_error(amount: Option<u64>) -> Result<u64, AmountError> {
    match amount {
        Some(raw) => Ok(raw),
        None => Err(AmountError::InvalidAmount),
    }
}

/// The multiple of the tick nearest to `raw`, the upper one of two equally near.
pub open spec fn aligned(raw: int, tick_size: int) -> int {
    if tick_size == 0 {
        raw
    } else {
        ((raw + tick_size / 2) / tick_size) * tick_size
    }
}

/// `d` writes a raw token amount, with at most six places.
pub open spec fn is_decimal_of(d: Decimal, raw: u64) -> bool {
    &&& d.is_ratio(raw as int, TOKEN_SCALE as int)
    &&& d.scale <= 6
}

/// The decimal of a raw token amount.
pub fn raw_to_decimal(raw: u64) -> (r: Decimal)
    ensures
        r.valid(),
        is_decimal_of(r, raw),
        (r.mantissa, r.scale) == decimal::decimal_quotient(raw as i128, 0, TOKEN_SCALE),
{
    proof {
        decimal::lemma_pow10_values();
    }
    let d: Decimal = Decimal::from_u64(raw);
    assert(decimal::pow10(d.scale as nat + 6) == TOKEN_SCALE);
    assert(decimal::exact_quotient(d, TOKEN_SCALE, 6));
    d.divide(TOKEN_SCALE)
}

/// The raw amount of a decimal number of tokens.
///
/// Where the product with the token scale fits in 96 bits, it is not rounded before it is
/// rounded to an integer. What [`raw_to_decimal`] gives for an amount is read as that amount.
pub fn decimal_to_raw_amount(value: Decimal) -> (r: Result<u64, AmountError>)
    requires
        value.valid(),
    ensures
        r == amount_or_error(raw_amount(value)),
        -79_228_162_514_264_337_593_543 <= value.mantissa <= 79_228_162_514_264_337_593_543 ==> r
            == amount_or_error(
            in_u64(decimal::round_half_even(value.mantissa * 1_000_000, decimal::pow10(value.scale as nat))),
        ),
        0 <= value.mantissa <= decimal::pow10(value.scale as nat) && r is Ok ==> r->Ok_0
            <= TOKEN_SCALE + 1,
        forall|raw: u64| #[trigger] is_decimal_of(value, raw) ==> r == Ok::<u64, AmountError>(raw),
{
    proof {
        decimal::lemma_pow10_values();
        assert forall|raw: u64| #[trigger] is_decimal_of(value, raw) implies 0 <= value.mantissa
            <= u64::MAX && decimal::round_half_even(
            value.mantissa * 1_000_000,
            decimal::pow10(value.scale as nat),
        ) == raw by {
            lemma_decimal_of(value, raw);
        }
    }
    match value.checked_mul(Decimal::from_u64(TOKEN_SCALE)) {
        Some(scaled) => {
            proof {
                if 0 <= value.mantissa <= decimal::pow10(value.scale as nat) {
                    lemma_probability_amount(value, scaled);
                }
                if value.mantissa == 0 {
                    decimal::lemma_pow10_positive(value.scale as nat);
                    lemma_zero_rounds(decimal::pow10(value.scale as nat));
                    lemma_zero_rounds(decimal::pow10(0));
                }
            }
            match scaled.round_to_u64() {
                Some(raw) => Ok(raw),
                None => Err(AmountError::InvalidAmount),
            }
        },
        None => Err(AmountError::InvalidAmount),
    }
}

proof fn lemma_decimal_of(value: Decimal, raw: u64)
    requires
        is_decimal_of(value, raw),
    ensures
        0 <= value.mantissa <= u64::MAX,
        decimal::round_half_even(
            value.mantissa * 1_000_000,
            decimal::pow10(value.scale as nat),
        ) == raw,
{
    decimal::lemma_pow10_values();
    let unit = decimal::pow10(value.scale as nat);
    decimal::lemma_pow10_positive(value.scale as nat);
    decimal::lemma_pow10_monotonic(value.scale as nat, 6);
    assert(0 <= value.mantissa <= raw) by (nonlinear_arith)
        requires
            value.mantissa * 1_000_000 == raw * unit,
            0 < unit <= 1_000_000,
            0 <= raw,
    ;
    lemma_exact_round(raw as int, unit);
}

proof fn lemma_zero_rounds(d: int)
    requires
        d > 0,
    ensures
        decimal::round_half_even(0, d) == 0,
{
    assert(0int / d == 0 && 0int % d == 0) by (nonlinear_arith)
        requires
            d > 0,
    ;
}

/// Why the text of an amount was refused.
#[derive(Debug)]
pub enum AmountTextError {
    /// The text is no number.
    InvalidNumber { cause: String },
    Amount(AmountError),
}

/// A refusal by its texts.
pub enum AmountTextErrorView {
    InvalidNumber { cause: Seq<char> },
    Amount(AmountError),
}

impl View for AmountTextError {
    type V = AmountTextErrorView;

    open spec fn view(&self) -> AmountTextErrorView {
        match *self {
            AmountTextError::InvalidNumber { cause } => AmountTextErrorView::InvalidNumber {
                cause: cause@,
            },
            AmountTextError::Amount(error) => AmountTextErrorView::Amount(error),
        }
    }
}

impl AmountTextErrorView {
    pub open spec fn text(self) -> Seq<char> {
        match self {
            AmountTextErrorView::InvalidNumber { cause } => cause,
            AmountTextErrorView::Amount(error) => error.text(),
        }
    }
}

impl AmountTextError {
    /// The refusal in words.
    pub fn message(&self) -> (r: String)
        ensures
            r@ == self@.text(),
    {
        match self {
            AmountTextError::InvalidNumber { cause } => cause.clone(),
            AmountTextError::Amount(error) => error.message().to_owned(),
        }
    }
}

/// The raw amount that a text writes, white space around it aside.
pub open spec fn parsed_amount(value: Seq<char>) -> Result<u64, AmountTextErrorView> {
    match decimal::parsed_decimal(text::trimmed(value)) {
        Some((mantissa, scale)) => match raw_amount(Decimal { mantissa, scale }) {
            Some(raw) => Ok(raw),
            None => Err(AmountTextErrorView::Amount(AmountError::InvalidAmount)),
        },
        None => Err(
            AmountTextErrorView::InvalidNumber {
                cause: decimal::parse_refusal(text::trimmed(value)),
            },
        ),
    }
}

/// A raw amount in tokens: whole tokens, and six places where it is no whole number.
pub open spec fn token_text(raw: nat) -> Seq<char> {
    let whole = text::decimal_text(raw / 1_000_000);
    if raw % 1_000_000 == 0 {
        whole
    } else {
        whole.push('.') + text::padded_text(raw % 1_000_000, 6)
    }
}

/// Reads a token amount into raw units.
///
/// Reading back what [`format_token_amount`] wrote gives the same amount.
pub fn parse_token_amount_str(value: &str) -> (r: Result<u64, AmountTextError>)
    ensures
        match r {
            Ok(raw) => parsed_amount(value@) == Ok::<u64, AmountTextErrorView>(raw),
            Err(e) => parsed_amount(value@) == Err::<u64, AmountTextErrorView>(e@),
        },
        forall|raw: u64|
            value@ == #[trigger] token_text(raw as nat) ==> r == Ok::<u64, AmountTextError>(raw),
{
    let body: String = text::trim(value);
    let parsed = Decimal::parse(body.as_str());
    proof {
        assert forall|raw: u64| value@ == #[trigger] token_text(raw as nat) implies (parsed matches Ok(
            d,
        ) && d.mantissa * 1_000_000 == raw * decimal::pow10(d.scale as nat) && 0 <= d.mantissa
            <= u64::MAX) by {
            lemma_token_text(raw);
        }
    }
    match parsed {
        Ok(d) => {
            proof {
                assert forall|raw: u64| value@ == #[trigger] token_text(raw as nat) implies raw
                    == decimal::round_half_even(
                    d.mantissa * 1_000_000,
                    decimal::pow10(d.scale as nat),
                ) by {
                    decimal::lemma_pow10_positive(d.scale as nat);
                    lemma_exact_round(raw as int, decimal::pow10(d.scale as nat));
                }
            }
            match decimal_to_raw_amount(d) {
                Ok(raw) => Ok(raw),
                Err(e) => Err(AmountTextError::Amount(e)),
            }
        },
        Err(cause) => Err(AmountTextError::InvalidNumber { cause }),
    }
}

proof fn lemma_exact_round(n: int, d: int)
    requires
        d > 0,
    ensures
        decimal::round_half_even(n * d, d) == n,
{
    assert((n * d) / d == n && (n * d) % d == 0) by (nonlinear_arith)
        requires
            d > 0,
    ;
}

/// The text of an amount is a plain decimal with the amount as its value.
pub proof fn lemma_token_text(raw: u64)
    ensures
        text::trimmed(token_text(raw as nat)) == token_text(raw as nat),
        exists|whole: Seq<char>, frac: Seq<char>|
            {
                &&& #[trigger] decimal::plain_form(token_text(raw as nat), whole, frac)
                &&& decimal::plain_parts(whole, frac).0 * 1_000_000 == raw * decimal::pow10(
                    decimal::plain_parts(whole, frac).1 as nat,
                )
                &&& 0 <= decimal::plain_parts(whole, frac).0 <= u64::MAX
                &&& frac.len() == if raw % 1_000_000 == 0 {
                    0nat
                } else {
                    6nat
                }
            },
{
    let n = raw as nat;
    let whole = text::decimal_text(n / 1_000_000);
    let rest = text::padded_text(n % 1_000_000, 6);
    text::lemma_decimal_text(n / 1_000_000);
    text::lemma_padded_text(n % 1_000_000, 6);
    decimal::lemma_pow10_values();
    assert(n / 1_000_000 < 100_000_000_000_000);
    assert(decimal::pow10(14) == 100_000_000_000_000) by {
        reveal_with_fuel(decimal::pow10, 15);
    }
    lemma_short_text(n / 1_000_000, 14);
    let frac = if n % 1_000_000 == 0 {
        Seq::<char>::empty()
    } else {
        rest
    };
    assert(whole + Seq::<char>::empty() =~= whole);
    lemma_padded_value(whole, n % 1_000_000, 6);
    let s = token_text(n);
    assert(text::is_digit(s[0])) by {
        assert(s[0] == whole[0]);
    }
    assert(text::is_digit(s.last())) by {
        if n % 1_000_000 == 0 {
            assert(s.last() == whole[whole.len() - 1]);
        } else {
            assert(s.last() == rest[5]);
        }
    }
    assert(decimal::plain_form(s, whole, frac));
}

/// The text of an amount reads as a quantity with the amount as its value.
pub proof fn lemma_token_quantity(raw: u64)
    ensures
        exists|whole: Seq<char>, frac: Seq<char>|
            {
                &&& #[trigger] decimal::plain_form(token_text(raw as nat), whole, frac)
                &&& raw * 1000 <= QUANTITY_RAW_MAX ==> fixed::plain_quantity(whole, frac) == Some(
                    Quantity {
                        raw: (raw * 1000) as u64,
                        precision: if raw % 1_000_000 == 0 {
                            0
                        } else {
                            6
                        },
                    },
                )
            },
{
    lemma_token_text(raw);
    decimal::lemma_pow10_values();
    let (whole, frac) = choose|whole: Seq<char>, frac: Seq<char>|
        {
            &&& #[trigger] decimal::plain_form(token_text(raw as nat), whole, frac)
            &&& decimal::plain_parts(whole, frac).0 * 1_000_000 == raw * decimal::pow10(
                decimal::plain_parts(whole, frac).1 as nat,
            )
            &&& 0 <= decimal::plain_parts(whole, frac).0 <= u64::MAX
            &&& frac.len() == if raw % 1_000_000 == 0 {
                0nat
            } else {
                6nat
            }
        };
    assert(decimal::plain_form(token_text(raw as nat), whole, frac));
}

/// Cutting zeros from the end of a fraction divides its digits by ten for each.
proof fn lemma_trimmed_value(head: Seq<char>, s: Seq<char>)
    requires
        text::all_digits(s),
    ensures
        ({
            let t = text::trim_end_char(s, '0');
            &&& t.len() <= s.len()
            &&& text::all_digits(t)
            &&& t.len() > 0 ==> t.last() != '0'
            &&& text::number_of(head + s) == text::number_of(head + t) * decimal::pow10(
                (s.len() - t.len()) as nat,
            )
        }),
    decreases s.len(),
{
    decimal::lemma_pow10_values();
    if s.len() > 0 && s.last() == '0' {
        let r = s.drop_last();
        lemma_trimmed_value(head, r);
        let t = text::trim_end_char(r, '0');
        let k = (r.len() - t.len()) as nat;
        assert((head + s).drop_last() =~= head + r);
        assert(text::number_of(head + s) == 10 * text::number_of(head + r));
        assert(10 * (text::number_of(head + t) * decimal::pow10(k)) == text::number_of(head + t) * (
        10 * decimal::pow10(k))) by (nonlinear_arith);
    } else {
        assert(text::number_of(head + s) * 1 == text::number_of(head + s)) by (nonlinear_arith);
    }
}

/// The text of a price in cents is a plain decimal with a hundred times the price as its value.
pub proof fn lemma_cents_text(raw: u64)
    requires
        raw * 100 <= u64::MAX,
    ensures
        text::trimmed(cents_text(raw as nat)) == cents_text(raw as nat),
        exists|whole: Seq<char>, frac: Seq<char>|
            {
                &&& #[trigger] decimal::plain_form(cents_text(raw as nat), whole, frac)
                &&& decimal::plain_parts(whole, frac).0 * 1_000_000 == raw * 100 * decimal::pow10(
                    decimal::plain_parts(whole, frac).1 as nat,
                )
                &&& 0 <= decimal::plain_parts(whole, frac).0 <= u64::MAX
                &&& frac.len() <= 6
            },
{
    let n = (raw * 100) as nat;
    let whole = text::decimal_text(n / 1_000_000);
    let rest = text::padded_text(n % 1_000_000, 6);
    text::lemma_decimal_text(n / 1_000_000);
    text::lemma_padded_text(n % 1_000_000, 6);
    decimal::lemma_pow10_values();
    assert(decimal::pow10(14) == 100_000_000_000_000) by {
        reveal_with_fuel(decimal::pow10, 15);
    }
    lemma_short_text(n / 1_000_000, 14);
    lemma_padded_value(whole, n % 1_000_000, 6);
    lemma_trimmed_value(whole, rest);
    assert(text::number_of(whole + rest) == n);
    let t = text::trim_end_char(rest, '0');
    let k = (6 - t.len()) as nat;
    decimal::lemma_pow10_adds(t.len(), k);
    decimal::lemma_pow10_positive(k);
    decimal::lemma_pow10_positive(t.len());
    let m = text::number_of(whole + t) as int;
    assert(m * decimal::pow10(k) == n);
    assert(m * 1_000_000 == n * decimal::pow10(t.len()) && m <= n) by (nonlinear_arith)
        requires
            m * decimal::pow10(k) == n,
            1_000_000 == decimal::pow10(t.len()) * decimal::pow10(k),
            decimal::pow10(k) > 0,
            m >= 0,
    ;
    let s = cents_text(raw as nat);
    if n % 1_000_000 == 0 {
        let frac = Seq::<char>::empty();
        assert(whole + frac =~= whole);
        assert(s[0] == whole[0] && s.last() == whole[whole.len() - 1]);
        assert(decimal::plain_form(s, whole, frac));
        let parts = decimal::plain_parts(whole, frac);
        assert(parts.1 == 0);
    } else {
        if t.len() == 0 {
            assert(whole + t =~= whole);
            assert(false);
        }
        assert(s[0] == whole[0]);
        assert(s.last() == t.last());
        assert(text::is_digit(t[t.len() - 1]));
        assert(decimal::plain_form(s, whole, t));
    }
}

/// A number below `10^k` has at most `k` digits.
proof fn lemma_short_text(n: nat, k: nat)
    requires
        k > 0,
        n < decimal::pow10(k),
    ensures
        text::decimal_text(n).len() <= k,
    decreases k,
{
    if n >= 10 {
        if k == 1 {
            decimal::lemma_pow10_values();
        }
        lemma_short_text(n / 10, (k - 1) as nat);
    }
}

/// Digits followed by the last `k` digits of `n`.
proof fn lemma_padded_value(head: Seq<char>, n: nat, k: nat)
    requires
        n < decimal::pow10(k),
    ensures
        text::number_of(head + text::padded_text(n, k)) == text::number_of(head) * decimal::pow10(k)
            + n,
    decreases k,
{
    let all = head + text::padded_text(n, k);
    if k == 0 {
        assert(all =~= head);
    } else {
        let j = (k - 1) as nat;
        lemma_padded_value(head, n / 10, j);
        assert(all.drop_last() =~= head + text::padded_text(n / 10, j));
        assert(text::digit_value(all.last()) == n % 10);
        assert((text::number_of(head) * decimal::pow10(j)) * 10 == text::number_of(head) * (10
            * decimal::pow10(j))) by (nonlinear_arith);
    }
}

/// Rounds a raw price to the tick grid. A tick of zero leaves it.
pub fn align_raw_to_tick(raw: u64, tick_size: u64) -> (r: u64)
    requires
        raw + tick_size / 2 <= u64::MAX,
    ensures
        r == aligned(raw as int, tick_size as int),
{
    if tick_size == 0 {
        return raw;
    }
    proof {
        lemma_aligned(raw as int, tick_size as int);
    }
    ((raw + tick_size / 2) / tick_size) * tick_size
}

/// An aligned price is a multiple of the tick, and no multiple of the tick is nearer.
pub proof fn lemma_aligned(raw: int, tick_size: int)
    requires
        raw >= 0,
        tick_size > 0,
    ensures
        aligned(raw, tick_size) % tick_size == 0,
        0 <= aligned(raw, tick_size) <= raw + tick_size / 2,
        2 * (aligned(raw, tick_size) - raw) <= tick_size,
        2 * (raw - aligned(raw, tick_size)) < tick_size,
{
    let t = tick_size;
    let q = (raw + t / 2) / t;
    let r = (raw + t / 2) % t;
    assert(raw + t / 2 == t * q + r && 0 <= r < t && q >= 0) by (nonlinear_arith)
        requires
            raw >= 0,
            t > 0,
            q == (raw + t / 2) / t,
            r == (raw + t / 2) % t,
    ;
    vstd::arithmetic::div_mod::lemma_mod_multiples_basic(q, t);
    vstd::arithmetic::mul::lemma_mul_is_commutative(q, t);
    vstd::arithmetic::mul::lemma_mul_nonnegative(q, t);
}

/// Aligning an aligned price leaves it.
pub proof fn law_align_is_idempotent(raw: u64, tick_size: u64)
    ensures
        aligned(aligned(raw as int, tick_size as int), tick_size as int) == aligned(
            raw as int,
            tick_size as int,
        ),
{
    if tick_size > 0 {
        let t = tick_size as int;
        let a = aligned(raw as int, t);
        lemma_aligned(raw as int, t);
        lemma_aligned(a, t);
        let b = aligned(a, t);
        let x = a / t;
        let y = b / t;
        assert(a == t * x && b == t * y) by (nonlinear_arith)
            requires
                t > 0,
                a % t == 0,
                b % t == 0,
                x == a / t,
                y == b / t,
        ;
        assert(x == y) by (nonlinear_arith)
            requires
                a == t * x,
                b == t * y,
                t > 0,
                2 * (b - a) <= t,
                2 * (a - b) < t,
        ;
    }
}

/// The limit price of a raw amount: on the tick grid, and not zero.
pub open spec fn on_tick(raw: Option<u64>, tick_size: u64) -> Result<u64, AmountError> {
    match raw {
        Some(raw) => {
            let price = aligned(raw as int, tick_size as int);
            if price == 0 {
                Err(AmountError::PriceRoundsToZero)
            } else {
                Ok(price as u64)
            }
        },
        None => Err(AmountError::InvalidAmount),
    }
}

/// The raw limit price of a probability.
pub open spec fn probability_price(price: Decimal, tick_size: u64) -> Result<u64, AmountError> {
    if price.mantissa < 0 || price.mantissa > decimal::pow10(price.scale as nat) {
        Err(AmountError::PriceOutOfRange)
    } else {
        on_tick(raw_amount(price), tick_size)
    }
}

/// The raw limit price for a price unit.
pub open spec fn limit_price(price: Decimal, tick_size: u64, unit: PriceUnit) -> Result<
    u64,
    AmountError,
> {
    match unit {
        PriceUnit::Cents => probability_price(price, tick_size),
        PriceUnit::Decimal => if price.mantissa <= 0 {
            Err(AmountError::PriceNotPositive)
        } else {
            on_tick(raw_amount(price), tick_size)
        },
    }
}

/// A limit price is a positive multiple of its tick.
pub open spec fn is_on_grid(r: Result<u64, AmountError>, tick_size: u64) -> bool {
    r matches Ok(price) ==> price > 0 && (tick_size > 0 ==> price % tick_size == 0)
}

/// A limit price is the positive multiple of the tick that is nearest to `n`, the upper one of two
/// equally near. It is refused as zero only where zero is nearest.
pub open spec fn is_nearest_tick(r: Result<u64, AmountError>, n: int, tick_size: u64) -> bool {
    match r {
        Ok(price) => price > 0 && if tick_size == 0 {
            price == n
        } else {
            price % tick_size == 0 && -(tick_size as int) < 2 * (price - n) <= tick_size
        },
        Err(AmountError::PriceRoundsToZero) => n == 0 || (0 <= n && 2 * n < tick_size),
        Err(AmountError::InvalidAmount) => n < 0 || n > u64::MAX,
        Err(_) => true,
    }
}

/// Rounding to the tick stays in range.
pub open spec fn limit_price_fits(price: Decimal, tick_size: u64, unit: PriceUnit) -> bool {
    unit == PriceUnit::Decimal ==> match raw_amount(price) {
        Some(raw) => raw + tick_size / 2 <= u64::MAX,
        None => true,
    }
}

/// Converts a probability to a raw limit price.
pub fn probability_to_limit_price(price: Decimal, tick_size: u64) -> (r: Result<u64, AmountError>)
    requires
        price.valid(),
    ensures
        r == probability_price(price, tick_size),
        is_on_grid(r, tick_size),
        r == Err::<u64, AmountError>(AmountError::PriceOutOfRange) <==> price.mantissa < 0
            || price.mantissa > decimal::pow10(price.scale as nat),
        r != Err::<u64, AmountError>(AmountError::PriceNotPositive),
        -79_228_162_514_264_337_593_543 <= price.mantissa <= 79_228_162_514_264_337_593_543
            ==> is_nearest_tick(
            r,
            decimal::round_half_even(
                price.mantissa * 1_000_000,
                decimal::pow10(price.scale as nat),
            ),
            tick_size,
        ),
{
    proof {
        decimal::lemma_pow10_values();
        assert(price.mantissa * 1 == price.mantissa);
        assert(0 * decimal::pow10(price.scale as nat) == 0);
    }
    if price.less_than(Decimal::zero()) || Decimal::one().less_than(price) {
        return Err(AmountError::PriceOutOfRange);
    }
    match decimal_to_raw_amount(price) {
        Ok(raw) => {
            let price_raw: u64 = align_raw_to_tick(raw, tick_size);
            proof {
                if tick_size > 0 {
                    lemma_aligned(raw as int, tick_size as int);
                }
            }
            if price_raw == 0 {
                Err(AmountError::PriceRoundsToZero)
            } else {
                Ok(price_raw)
            }
        },
        Err(e) => Err(e),
    }
}

/// The raw amount of a probability is at most one token, and one unit of rounding.
proof fn lemma_probability_amount(price: Decimal, p: Decimal)
    requires
        price.valid(),
        0 <= price.mantissa <= decimal::pow10(price.scale as nat),
        p.valid(),
        decimal::near_product(price, Decimal { mantissa: 1_000_000, scale: 0 }, p),
    ensures
        p.rounded() <= 1_000_001,
{
    let s = price.scale as nat;
    let t = p.scale as nat;
    let k = (s - t) as nat;
    let unit = decimal::pow10(k);
    decimal::lemma_pow10_values();
    decimal::lemma_pow10_positive(k);
    decimal::lemma_pow10_positive(t);
    decimal::lemma_pow10_adds(t, k);
    let d = decimal::pow10(t);
    let m = p.mantissa as int;
    assert(m <= d * 1_000_000 + 1) by (nonlinear_arith)
        requires
            m * unit - unit <= price.mantissa * 1_000_000,
            price.mantissa <= d * unit,
            unit > 0,
    ;
    let q = m / d;
    let r = m % d;
    assert(m == d * q + r && 0 <= r < d) by (nonlinear_arith)
        requires
            d > 0,
            q == m / d,
            r == m % d,
    ;
    assert(q <= 1_000_001) by (nonlinear_arith)
        requires
            m == d * q + r,
            0 <= r,
            m <= d * 1_000_000 + 1,
            d > 0,
    ;
    if q == 1_000_001 {
        assert(r == 0) by (nonlinear_arith)
            requires
                m == d * q + r,
                0 <= r,
                q == 1_000_001,
                m <= d * 1_000_000 + 1,
                d > 0,
        ;
    }
}

/// Convert a limit price to on-chain raw units for the given price unit.
pub fn to_limit_price_raw(price: Decimal, tick_size: u64, unit: PriceUnit) -> (r: Result<
    u64,
    AmountError,
>)
    requires
        price.valid(),
        limit_price_fits(price, tick_size, unit),
    ensures
        r == limit_price(price, tick_size, unit),
        is_on_grid(r, tick_size),
        r == Err::<u64, AmountError>(AmountError::PriceOutOfRange) <==> unit == PriceUnit::Cents
            && (price.mantissa < 0 || price.mantissa > decimal::pow10(price.scale as nat)),
        r == Err::<u64, AmountError>(AmountError::PriceNotPositive) <==> unit
            == PriceUnit::Decimal && price.mantissa <= 0,
        -79_228_162_514_264_337_593_543 <= price.mantissa <= 79_228_162_514_264_337_593_543
            ==> is_nearest_tick(
            r,
            decimal::round_half_even(
                price.mantissa * 1_000_000,
                decimal::pow10(price.scale as nat),
            ),
            tick_size,
        ),
{
    match unit {
        PriceUnit::Cents => probability_to_limit_price(price, tick_size),
        PriceUnit::Decimal => {
            proof {
                decimal::lemma_pow10_values();
            }
            if !Decimal::zero().less_than(price) {
                return Err(AmountError::PriceNotPositive);
            }
            match decimal_to_raw_amount(price) {
                Ok(raw) => {
                    let price_raw: u64 = align_raw_to_tick(raw, tick_size);
                    proof {
                        if tick_size > 0 {
                            lemma_aligned(raw as int, tick_size as int);
                        }
                    }
                    if price_raw == 0 {
                        Err(AmountError::PriceRoundsToZero)
                    } else {
                        Ok(price_raw)
                    }
                },
                Err(e) => Err(e),
            }
        },
    }
}

/// As [`to_limit_price_raw`], and `None` where rounding to the tick leaves the range.
pub fn checked_limit_price_raw(price: Decimal, tick_size: u64, unit: PriceUnit) -> (r: Option<
    Result<u64, AmountError>,
>)
    requires
        price.valid(),
    ensures
        r == if limit_price_fits(price, tick_size, unit) {
            Some(limit_price(price, tick_size, unit))
        } else {
            None
        },
        r is None && -79_228_162_514_264_337_593_543 <= price.mantissa
            <= 79_228_162_514_264_337_593_543 ==> unit == PriceUnit::Decimal
            && decimal::round_half_even(
            price.mantissa * 1_000_000,
            decimal::pow10(price.scale as nat),
        ) + tick_size / 2 > u64::MAX,
        r matches Some(r) ==> {
            &&& r == Err::<u64, AmountError>(AmountError::PriceOutOfRange) <==> unit
                == PriceUnit::Cents && (price.mantissa < 0 || price.mantissa > decimal::pow10(
                price.scale as nat,
            ))
            &&& r == Err::<u64, AmountError>(AmountError::PriceNotPositive) <==> unit
                == PriceUnit::Decimal && price.mantissa <= 0
            &&& -79_228_162_514_264_337_593_543 <= price.mantissa <= 79_228_162_514_264_337_593_543
                ==> is_nearest_tick(
                r,
                decimal::round_half_even(
                    price.mantissa * 1_000_000,
                    decimal::pow10(price.scale as nat),
                ),
                tick_size,
            )
        },
{
    if unit == PriceUnit::Decimal {
        if let Ok(raw) = decimal_to_raw_amount(price) {
            if raw > u64::MAX - tick_size / 2 {
                return None;
            }
        }
    }
    Some(to_limit_price_raw(price, tick_size, unit))
}

/// A raw amount in tokens.
pub fn format_token_amount(raw: u64) -> (r: String)
    ensures
        r@ == token_text(raw as nat),
{
    let whole: u64 = raw / TOKEN_SCALE;
    let frac: u64 = raw % TOKEN_SCALE;
    let mut r: String = text::u64_text(whole);
    if frac == 0 {
        return r;
    }
    r.push('.');
    r.append(text::padded_u64_text(frac, 6).as_str());
    r
}

/// The tick size that the instrument parameters give, where it is positive.
pub open spec fn tick_size_of(info: Option<Params>) -> u64 {
    match params::param(info, "tick_size_raw"@) {
        Some(ParamValue::Unsigned(tick)) => if tick > 0 {
            tick
        } else {
            DEFAULT_TICK_SIZE_RAW
        },
        _ => DEFAULT_TICK_SIZE_RAW,
    }
}

pub fn tick_size_from_instrument_info(info: Option<&Params>) -> (r: u64)
    ensures
        r == tick_size_of(params::owned(info)),
        r > 0,
{
    if let Some(entries) = info {
        if let Some(value) = entries.get("tick_size_raw") {
            if let ParamValue::Unsigned(tick) = value {
                if *tick > 0 {
                    return *tick;
                }
            }
        }
    }
    DEFAULT_TICK_SIZE_RAW
}

/// A hundred times a raw price, cut at the range of `u64`.
pub open spec fn cents_numerator(raw: nat) -> nat {
    if raw * 100 <= u64::MAX {
        raw * 100
    } else {
        u64::MAX as nat
    }
}

/// A raw price in cents: whole cents, and the places that are needed.
pub open spec fn cents_text(raw: nat) -> Seq<char> {
    let n = cents_numerator(raw);
    let whole = text::decimal_text(n / 1_000_000);
    if n % 1_000_000 == 0 {
        whole
    } else {
        whole.push('.') + text::trim_end_char(text::padded_text(n % 1_000_000, 6), '0')
    }
}

/// A raw price in cents.
pub fn format_price_pieces(raw: u64) -> (r: String)
    ensures
        r@ == cents_text(raw as nat),
{
    let numerator: u64 = if raw <= u64::MAX / 100 {
        raw * 100
    } else {
        u64::MAX
    };
    let whole: u64 = numerator / TOKEN_SCALE;
    let frac: u64 = numerator % TOKEN_SCALE;
    let mut r: String = text::u64_text(whole);
    if frac == 0 {
        return r;
    }
    let frac_text: String = text::padded_u64_text(frac, 6);
    r.push('.');
    r.append(text::trim_end_matches(frac_text.as_str(), '0').as_str());
    r
}

/// The text of a limit price for a price unit.
pub open spec fn price_text(raw: u64, unit: PriceUnit) -> Seq<char> {
    match unit {
        PriceUnit::Cents => cents_text(raw as nat),
        PriceUnit::Decimal => token_text(raw as nat),
    }
}

/// `r` is the text of the limit price `price`, or the same refusal.
pub open spec fn is_price_text(
    r: Result<String, AmountError>,
    price: Result<u64, AmountError>,
    unit: PriceUnit,
) -> bool {
    match price {
        Ok(raw) => r matches Ok(s) && s@ == price_text(raw, unit),
        Err(e) => r == Err::<String, AmountError>(e),
    }
}

/// The limit price of a probability, in cents.
pub fn limit_price_string(price: Decimal, tick_size: u64) -> (r: Result<String, AmountError>)
    requires
        price.valid(),
    ensures
        is_price_text(r, probability_price(price, tick_size), PriceUnit::Cents),
        match probability_price(price, tick_size) {
            Ok(raw) => r is Ok && r->Ok_0@ == cents_text(raw as nat),
            Err(e) => r == Err::<String, AmountError>(e),
        },
{
    match probability_to_limit_price(price, tick_size) {
        Ok(raw) => Ok(format_price_pieces(raw)),
        Err(e) => Err(e),
    }
}

/// Format a limit price for clob-index query matching (cents vs human decimal).
pub fn limit_price_string_for_unit(price: Decimal, tick_size: u64, unit: PriceUnit) -> (r: Result<
    String,
    AmountError,
>)
    requires
        price.valid(),
        limit_price_fits(price, tick_size, unit),
    ensures
        is_price_text(r, limit_price(price, tick_size, unit), unit),
        match limit_price(price, tick_size, unit) {
            Ok(raw) => r is Ok && r->Ok_0@ == if unit == PriceUnit::Decimal {
                token_text(raw as nat)
            } else {
                cents_text(raw as nat)
            },
            Err(e) => r == Err::<String, AmountError>(e),
        },
{
    match to_limit_price_raw(price, tick_size, unit) {
        Ok(raw) => Ok(
            match unit {
                PriceUnit::Cents => format_price_pieces(raw),
                PriceUnit::Decimal => format_token_amount(raw),
            },
        ),
        Err(e) => Err(e),
    }
}

/// As [`limit_price_string_for_unit`], and `None` where rounding to the tick leaves the range.
pub fn checked_limit_price_string(price: Decimal, tick_size: u64, unit: PriceUnit) -> (r: Option<
    Result<String, AmountError>,
>)
    requires
        price.valid(),
    ensures
        r is Some <==> limit_price_fits(price, tick_size, unit),
        r matches Some(s) ==> is_price_text(s, limit_price(price, tick_size, unit), unit),
        r matches Some(s) ==> match limit_price(price, tick_size, unit) {
            Ok(raw) => s is Ok && s->Ok_0@ == if unit == PriceUnit::Decimal {
                token_text(raw as nat)
            } else {
                cents_text(raw as nat)
            },
            Err(e) => s == Err::<String, AmountError>(e),
        },
{
    match checked_limit_price_raw(price, tick_size, unit) {
        Some(_) => Some(limit_price_string_for_unit(price, tick_size, unit)),
        None => None,
    }
}

/// Rounding to an integer moves a number by at most one half, and an integer not at all.
proof fn lemma_nearest(n: int, d: int)
    requires
        d > 0,
    ensures
        ({
            let q = decimal::round_half_even(n, d);
            &&& -d <= 2 * (q * d - n) <= d
            &&& (2 * (q * d - n) == d || 2 * (q * d - n) == -d) ==> q % 2 == 0
        }),
{
    decimal::law_rounding_is_to_the_nearest(n, d);
}

/// Two roundings of one number agree.
proof fn lemma_nearest_unique(n: int, d: int, a: int, b: int)
    requires
        d > 0,
        -d <= 2 * (a * d - n) <= d,
        (2 * (a * d - n) == d || 2 * (a * d - n) == -d) ==> a % 2 == 0,
        -d <= 2 * (b * d - n) <= d,
        (2 * (b * d - n) == d || 2 * (b * d - n) == -d) ==> b % 2 == 0,
    ensures
        a == b,
{
    let k = a - b;
    assert(-d <= k * d <= d) by (nonlinear_arith)
        requires
            k == a - b,
            -d <= 2 * (a * d - n) <= d,
            -d <= 2 * (b * d - n) <= d,
    ;
    assert(-1 <= k <= 1) by (nonlinear_arith)
        requires
            -d <= k * d <= d,
            d > 0,
    ;
    assert(a * d == b * d + k * d) by (nonlinear_arith)
        requires
            k == a - b,
    ;
    assert(1 * d == d && -1 * d == -d);
    if k == 1 {
        assert(k * d == d);
        assert(a % 2 == 0 && b % 2 == 0);
    } else if k == -1 {
        assert(k * d == -d);
        assert(a % 2 == 0 && b % 2 == 0);
    }
}

/// The raw amount of `m / 10^precision` tokens, where that is `raw` units of a billionth: the
/// nearest thousandth part of `raw`, the even one of two equally near.
pub proof fn lemma_billionths(m: int, precision: nat, raw: int)
    requires
        precision <= 9,
        m * decimal::pow10((9 - precision) as nat) == raw,
    ensures
        decimal::round_half_even(m * 1_000_000, decimal::pow10(precision))
            == decimal::round_half_even(raw, 1_000),
{
    decimal::lemma_pow10_values();
    let d = decimal::pow10(precision);
    let up = decimal::pow10((9 - precision) as nat);
    decimal::lemma_pow10_positive(precision);
    decimal::lemma_pow10_positive((9 - precision) as nat);
    decimal::lemma_pow10_adds(precision, (9 - precision) as nat);
    assert(d * up == 1_000_000_000);
    let n = m * 1_000_000;
    let q = decimal::round_half_even(n, d);
    lemma_nearest(n, d);
    lemma_nearest(raw, 1_000);
    let e = q * d - n;
    let f = q * 1_000 - raw;
    assert(e * up == f * 1_000_000) by (nonlinear_arith)
        requires
            e == q * d - m * 1_000_000,
            f == q * 1_000 - raw,
            m * up == raw,
            d * up == 1_000_000_000,
    ;
    assert(2 * (e * up) <= d * up && -(d * up) <= 2 * (e * up)) by (nonlinear_arith)
        requires
            -d <= 2 * e <= d,
            up > 0,
    ;
    if 2 * f == 1_000 || 2 * f == -1_000 {
        assert(2 * e == d || 2 * e == -d) by (nonlinear_arith)
            requires
                e * up == f * 1_000_000,
                d * up == 1_000_000_000,
                up > 0,
                2 * f == 1_000 || 2 * f == -1_000,
        ;
    }
    lemma_nearest_unique(raw, 1_000, q, decimal::round_half_even(raw, 1_000));
}

/// The decimal of a quantity, in raw amounts.
pub proof fn lemma_quantity_units(quantity: Quantity)
    requires
        quantity.valid(),
    ensures
        0 <= quantity.decimal().mantissa <= QUANTITY_RAW_MAX,
        decimal::round_half_even(
            quantity.decimal().mantissa * 1_000_000,
            decimal::pow10(quantity.decimal().scale as nat),
        ) == decimal::round_half_even(quantity.raw as int, 1_000),
{
    let unit = fixed::raw_unit(quantity.precision as int);
    decimal::lemma_pow10_positive((fixed::FIXED_PRECISION - quantity.precision) as nat);
    fixed::lemma_exact_division(quantity.raw as int, unit);
    fixed::lemma_quotient_bound(quantity.raw as int, unit);
    lemma_billionths(
        quantity.decimal().mantissa as int,
        quantity.precision as nat,
        quantity.raw as int,
    );
}

/// The decimal of a price, in raw amounts.
pub proof fn lemma_price_units(price: Price)
    requires
        price.valid(),
    ensures
        -(PRICE_RAW_MAX as int) <= price.decimal().mantissa <= PRICE_RAW_MAX,
        price.decimal().mantissa < 0 <==> price.raw < 0,
        price.decimal().mantissa == 0 <==> price.raw == 0,
        price.decimal().mantissa > decimal::pow10(price.decimal().scale as nat) <==> price.raw
            > 1_000_000_000,
        decimal::round_half_even(
            price.decimal().mantissa * 1_000_000,
            decimal::pow10(price.decimal().scale as nat),
        ) == decimal::round_half_even(price.raw as int, 1_000),
{
    let p = price.precision as nat;
    let unit = fixed::raw_unit(price.precision as int);
    let raw = price.raw as int;
    decimal::lemma_pow10_values();
    decimal::lemma_pow10_positive((9 - p) as nat);
    decimal::lemma_pow10_positive(p);
    decimal::lemma_pow10_adds(p, (9 - p) as nat);
    fixed::lemma_exact_division(raw, unit);
    let m = raw / unit;
    let d = decimal::pow10(p);
    assert(m * unit == raw && d * unit == 1_000_000_000);
    assert(-(PRICE_RAW_MAX as int) <= m <= PRICE_RAW_MAX && (m < 0 <==> raw < 0) && (m == 0 <==> raw
        == 0) && (m > d <==> raw > 1_000_000_000)) by (nonlinear_arith)
        requires
            m * unit == raw,
            d * unit == 1_000_000_000,
            unit > 0,
            -(PRICE_RAW_MAX as int) <= raw <= PRICE_RAW_MAX,
    ;
    lemma_billionths(m, p, raw);
}


/// Prices are in cents unless the instrument says `decimal`, in whatever case.
pub proof fn law_price_units(info: Option<Params>)
    ensures
        params::param_text(info, "price_unit"@) is None ==> unit_of(info) == PriceUnit::Cents,
        params::param_text(info, "price_unit"@) matches Some(unit) ==> (text::lower(unit)
            == text::lower("decimal"@) <==> unit_of(info) == PriceUnit::Decimal),
{
}

/// The tick size is that of the instrument where it has a positive one, else a thousandth.
pub proof fn law_tick_sizes_are_positive(info: Option<Params>)
    ensures
        tick_size_of(info) > 0,
        params::param(info, "tick_size_raw"@) matches Some(ParamValue::Unsigned(tick)) ==> (tick > 0
            ==> tick_size_of(info) == tick),
        params::param(info, "tick_size_raw"@) is None ==> tick_size_of(info) == 1_000,
{
}

/// A price in cents has no more places than it needs, and no more cents than fit are shown.
pub proof fn law_cents_texts(raw: u64)
    ensures
        raw % 10_000 == 0 && raw * 100 <= u64::MAX ==> cents_text(raw as nat) == text::decimal_text(
            raw as nat / 10_000,
        ),
        raw % 10_000 != 0 && raw * 100 <= u64::MAX ==> cents_text(raw as nat).last() != '0'
            && cents_text(raw as nat).contains('.'),
        raw * 100 > u64::MAX ==> cents_text(raw as nat) == cents_text(u64::MAX as nat),
{
    let n = (raw * 100) as nat;
    if n <= u64::MAX {
        assert(n % 1_000_000 == 0 <==> raw % 10_000 == 0);
        let whole = text::decimal_text(n / 1_000_000);
        if n % 1_000_000 != 0 {
            let rest = text::padded_text(n % 1_000_000, 6);
            let t = text::trim_end_char(rest, '0');
            lemma_cents_text(raw);
            text::law_ends_are_cut(rest, '0');
            text::lemma_padded_text(n % 1_000_000, 6);
            text::lemma_decimal_text(n / 1_000_000);
            decimal::lemma_pow10_values();
            lemma_padded_value(whole, n % 1_000_000, 6);
            lemma_trimmed_value(whole, rest);
            if t.len() == 0 {
                assert(whole + t =~= whole);
                assert(false);
            }
            let s = cents_text(raw as nat);
            assert(s.last() == t.last());
            assert(s[whole.len() as int] == '.');
        } else {
            assert(n / 1_000_000 == raw as nat / 10_000);
        }
    }
}

/// A readable text gives its number of millionths, and all others are refused.
pub proof fn law_amount_texts(value: Seq<char>)
    ensures
        decimal::parsed_decimal(text::trimmed(value)) is None ==> parsed_amount(value) is Err,
        decimal::parsed_decimal(text::trimmed(value)) matches Some((mantissa, scale)) ==> match raw_amount(
            Decimal { mantissa, scale },
        ) {
            Some(raw) => parsed_amount(value) == Ok::<u64, AmountTextErrorView>(raw),
            None => parsed_amount(value) == Err::<u64, AmountTextErrorView>(
                AmountTextErrorView::Amount(AmountError::InvalidAmount),
            ),
        },
{
}

} // verus!
