//! Decimal numbers as a mantissa and a scale, computed by `rust_decimal`.

use core::str::FromStr;
use vstd::prelude::*;

use crate::text;

verus! {

/// Largest magnitude of a mantissa: 96 bits.
pub const MAX_MANTISSA: i128 = 79_228_162_514_264_337_593_543_950_335;

/// Largest number of decimal places.
pub const MAX_SCALE: u32 = 28;

/// Ten to the power of `n`.
pub open spec fn pow10(n: nat) -> int
    decreases n,
{
    if n == 0 {
        1
    } else {
        10 * pow10((n - 1) as nat)
    }
}

/// The integer nearest to `n / d`, the even one of two equally near.
pub open spec fn round_half_even(n: int, d: int) -> int {
    let q = n / d;
    let r = n % d;
    if 2 * r < d || (2 * r == d && q % 2 == 0) {
        q
    } else {
        q + 1
    }
}

/// The number `mantissa / 10^scale`.
#[derive(Clone, Copy, Debug)]
pub struct Decimal {
    pub mantissa: i128,
    pub scale: u32,
}

impl Decimal {
    /// The mantissa fits in 96 bits and the scale in 28 places.
    pub open spec fn valid(self) -> bool {
        -MAX_MANTISSA <= self.mantissa <= MAX_MANTISSA && self.scale <= MAX_SCALE
    }

    /// The number equals `n / d`.
    pub open spec fn is_ratio(self, n: int, d: int) -> bool {
        self.mantissa * d == n * pow10(self.scale as nat)
    }

    /// The number is below that of `other`.
    pub open spec fn below(self, other: Decimal) -> bool {
        self.mantissa * pow10(other.scale as nat) < other.mantissa * pow10(self.scale as nat)
    }

    /// The integer nearest to the number, the even one of two equally near.
    pub open spec fn rounded(self) -> int {
        round_half_even(self.mantissa as int, pow10(self.scale as nat))
    }

    pub fn zero() -> (r: Decimal)
        ensures
            r.valid(),
            r.mantissa == 0,
            r.scale == 0,
    {
        Decimal { mantissa: 0, scale: 0 }
    }

    pub fn one() -> (r: Decimal)
        ensures
            r.valid(),
            r.mantissa == 1,
            r.scale == 0,
    {
        Decimal { mantissa: 1, scale: 0 }
    }

    /// The decimal of an integer.
    pub fn from_u64(n: u64) -> (r: Decimal)
        ensures
            r.valid(),
            r.mantissa == n,
            r.scale == 0,
    {
        Decimal { mantissa: n as i128, scale: 0 }
    }

    pub fn is_zero(&self) -> (r: bool)
        ensures
            r == (self.mantissa == 0),
    {
        self.mantissa == 0
    }

    /// The number that a text writes.
    ///
    /// Fails on the texts for which `parsed_decimal` is `None`, and says why.
    pub fn parse(text: &str) -> (r: Result<Decimal, String>)
        ensures
            read_parts(r) == parsed_decimal(text@),
            r matches Err(cause) ==> cause@ == parse_refusal(text@),
            r matches Ok(d) ==> d.valid(),
            forall|whole: Seq<char>, frac: Seq<char>| #[trigger]
                plain_form(text@, whole, frac) ==> read_parts(r) == Some(plain_parts(whole, frac)),
    {
        parse_outside(text)
    }

    /// The product, `None` where it does not fit.
    pub fn checked_mul(self, other: Decimal) -> (r: Option<Decimal>)
        requires
            self.valid(),
            other.valid(),
        ensures
            parts(r) == decimal_product(self.mantissa, self.scale, other.mantissa, other.scale),
            r matches Some(d) ==> d.valid(),
            exact_product(self, other) ==> parts(r) == Some(product_parts(self, other)),
            r is Some ==> near_product(self, other, r->Some_0),
    {
        multiply_outside(self, other)
    }

    /// The sum, `None` where it does not fit.
    pub fn checked_add(self, other: Decimal) -> (r: Option<Decimal>)
        requires
            self.valid(),
            other.valid(),
        ensures
            parts(r) == decimal_sum(self.mantissa, self.scale, other.mantissa, other.scale),
            r matches Some(d) ==> d.valid(),
            exact_sum(self, other) ==> r is Some && is_sum(self, other, r->Some_0),
    {
        add_outside(self, other)
    }

    /// The difference, `None` where it does not fit.
    pub fn checked_sub(self, other: Decimal) -> (r: Option<Decimal>)
        requires
            self.valid(),
            other.valid(),
        ensures
            parts(r) == decimal_difference(self.mantissa, self.scale, other.mantissa, other.scale),
            r matches Some(d) ==> d.valid(),
            exact_sum(self, other) ==> r is Some && is_sum(r->Some_0, other, self),
    {
        subtract_outside(self, other)
    }

    /// The number in decimal digits, without zeros at the end of its fraction.
    pub fn normalized_text(self) -> (r: String)
        requires
            self.valid(),
        ensures
            r@ == normalized_display(self.mantissa, self.scale),
    {
        display_outside(normalize_outside(self))
    }

    /// The quotient by a positive integer below 2^32.
    pub fn divide(self, divisor: u64) -> (r: Decimal)
        requires
            self.valid(),
            0 < divisor < 0x1_0000_0000,
        ensures
            r.valid(),
            (r.mantissa, r.scale) == decimal_quotient(self.mantissa, self.scale, divisor),
            forall|k: nat|
                exact_quotient(self, divisor, k) ==> r.is_ratio(
                    self.mantissa as int,
                    #[trigger] pow10(self.scale as nat + k),
                ),
            forall|k: nat|
                2 <= k && #[trigger] exact_quotient(self, divisor, k) ==> r.scale <= self.scale + k,
    {
        divide_outside(self, divisor)
    }

    /// Whether the number is below that of `other`.
    pub fn less_than(self, other: Decimal) -> (r: bool)
        requires
            self.valid(),
            other.valid(),
        ensures
            r == self.below(other),
    {
        less_outside(self, other)
    }

    /// The smaller of two numbers, `self` where they are equal.
    pub fn min(self, other: Decimal) -> (r: Decimal)
        requires
            self.valid(),
            other.valid(),
        ensures
            r == if other.below(self) {
                other
            } else {
                self
            },
    {
        if other.less_than(self) {
            other
        } else {
            self
        }
    }

    /// The number in decimal digits.
    pub fn text(self) -> (r: String)
        requires
            self.valid(),
        ensures
            r@ == decimal_display(self.mantissa, self.scale),
    {
        display_outside(self)
    }

    /// The nearest integer, the even one of two equally near, where it is a `u64`.
    pub fn round_to_u64(self) -> (r: Option<u64>)
        requires
            self.valid(),
        ensures
            r == if 0 <= self.rounded() <= u64::MAX {
                Some(self.rounded() as u64)
            } else {
                None
            },
    {
        let d: i128 = power_of_ten(self.scale);
        if self.mantissa < 0 {
            let m: i128 = -self.mantissa;
            proof {
                lemma_round_negative(m as int, d as int);
            }
            // Only numbers from -1/2 up round to zero.
            if 2 * (m as u128) <= d as u128 {
                Some(0)
            } else {
                None
            }
        } else {
            let q: i128 = self.mantissa / d;
            let r: i128 = self.mantissa % d;
            let n: i128 = if (r as u128) * 2 < d as u128 || ((r as u128) * 2 == d as u128 && q % 2
                == 0) {
                q
            } else {
                q + 1
            };
            if n <= u64::MAX as i128 {
                Some(n as u64)
            } else {
                None
            }
        }
    }
}

/// Mantissa and scale of a decimal, where there is one.
pub open spec fn parts(d: Option<Decimal>) -> Option<(i128, u32)> {
    match d {
        Some(d) => Some((d.mantissa, d.scale)),
        None => None,
    }
}

/// Mantissa and scale of a decimal that was read, where there is one.
pub open spec fn read_parts<E>(d: Result<Decimal, E>) -> Option<(i128, u32)> {
    match d {
        Ok(d) => Some((d.mantissa, d.scale)),
        Err(_) => None,
    }
}

/// What was read: mantissa and scale, or why it was refused.
pub open spec fn reading(d: Result<Decimal, String>) -> Result<(i128, u32), Seq<char>> {
    match d {
        Ok(d) => Ok((d.mantissa, d.scale)),
        Err(cause) => Err(cause@),
    }
}

/// What `rust_decimal` reads from a text: mantissa and scale, or the text of its error.
pub uninterp spec fn decimal_reading(text: Seq<char>) -> Result<(i128, u32), Seq<char>>;

/// Mantissa and scale of the number that a text writes, where it writes one.
pub open spec fn parsed_decimal(text: Seq<char>) -> Option<(i128, u32)> {
    match decimal_reading(text) {
        Ok(parts) => Some(parts),
        Err(_) => None,
    }
}

/// Why a text is no number.
pub open spec fn parse_refusal(text: Seq<char>) -> Seq<char> {
    match decimal_reading(text) {
        Ok(_) => Seq::empty(),
        Err(cause) => cause,
    }
}

/// What `rust_decimal` gives for a product of two decimals, or nothing.
pub uninterp spec fn decimal_product(m1: i128, s1: u32, m2: i128, s2: u32) -> Option<(i128, u32)>;

/// What `rust_decimal` gives for a quotient by an integer.
pub uninterp spec fn decimal_quotient(m: i128, s: u32, divisor: u64) -> (i128, u32);

/// What `rust_decimal` gives for a sum of two decimals, or nothing.
pub uninterp spec fn decimal_sum(m1: i128, s1: u32, m2: i128, s2: u32) -> Option<(i128, u32)>;

/// What `rust_decimal` gives for a difference of two decimals, or nothing.
pub uninterp spec fn decimal_difference(m1: i128, s1: u32, m2: i128, s2: u32) -> Option<
    (i128, u32),
>;

/// Mantissa and scale without zeros at the end of the places.
pub open spec fn without_zeros(m: int, s: nat) -> (int, nat)
    decreases s,
{
    if m == 0 {
        (0, 0)
    } else if s > 0 && m % 10 == 0 {
        without_zeros(m / 10, (s - 1) as nat)
    } else {
        (m, s)
    }
}

/// How a decimal is written: all its places, and a digit ahead of the point.
pub open spec fn written(m: int, s: nat) -> Seq<char> {
    let n = if m < 0 {
        -m as nat
    } else {
        m as nat
    };
    let unit = pow10(s) as nat;
    let sign = if m < 0 {
        seq!['-']
    } else {
        Seq::<char>::empty()
    };
    let whole = sign + text::decimal_text(n / unit);
    if s == 0 {
        whole
    } else {
        whole.push('.') + text::padded_text(n % unit, s)
    }
}

/// How a decimal is written without zeros at the end of its places.
pub open spec fn normalized_display(m: i128, s: u32) -> Seq<char> {
    let (mantissa, scale) = without_zeros(m as int, s as nat);
    written(mantissa, scale)
}

/// How a decimal is written.
pub open spec fn decimal_display(m: i128, s: u32) -> Seq<char> {
    written(m as int, s as nat)
}

/// `text` is `whole`, or `whole` and `frac` around a point: digits, 28 of them at most.
pub open spec fn plain_form(text: Seq<char>, whole: Seq<char>, frac: Seq<char>) -> bool {
    &&& text::all_digits(whole)
    &&& text::all_digits(frac)
    &&& whole.len() > 0
    &&& whole.len() + frac.len() <= 28
    &&& text == if frac.len() == 0 {
        whole
    } else {
        whole.push('.') + frac
    }
}

/// Mantissa and scale of a plain text: all its digits, and those behind the point.
pub open spec fn plain_parts(whole: Seq<char>, frac: Seq<char>) -> (i128, u32) {
    (text::number_of(whole + frac) as i128, frac.len() as u32)
}

/// The product needs no rounding.
pub open spec fn exact_product(a: Decimal, b: Decimal) -> bool {
    -MAX_MANTISSA <= a.mantissa * b.mantissa <= MAX_MANTISSA && a.scale + b.scale <= MAX_SCALE
}

/// Mantissa and scale of a product that needs no rounding: a zero product has scale 0.
pub open spec fn product_parts(a: Decimal, b: Decimal) -> (i128, u32) {
    if a.mantissa == 0 || b.mantissa == 0 {
        (0, 0)
    } else {
        ((a.mantissa * b.mantissa) as i128, (a.scale + b.scale) as u32)
    }
}

/// Sum and difference need no rounding: the mantissas have at most 64 bits, and brought to one
/// scale, at most 19 places apart, they add up to at most 95 bits.
pub open spec fn exact_sum(a: Decimal, b: Decimal) -> bool {
    let high = if a.scale > b.scale {
        a.scale
    } else {
        b.scale
    };
    let x = a.mantissa * pow10((high - a.scale) as nat);
    let y = b.mantissa * pow10((high - b.scale) as nat);
    &&& -0x1_0000_0000_0000_0000 < a.mantissa < 0x1_0000_0000_0000_0000
    &&& -0x1_0000_0000_0000_0000 < b.mantissa < 0x1_0000_0000_0000_0000
    &&& -19 <= a.scale - b.scale <= 19
    &&& -0x4000_0000_0000_0000_0000_0000 <= x <= 0x4000_0000_0000_0000_0000_0000
    &&& -0x4000_0000_0000_0000_0000_0000 <= y <= 0x4000_0000_0000_0000_0000_0000
}

/// `sum` is the number `a + b`.
pub open spec fn is_sum(a: Decimal, b: Decimal, sum: Decimal) -> bool {
    (a.mantissa * pow10(b.scale as nat) + b.mantissa * pow10(a.scale as nat)) * pow10(
        sum.scale as nat,
    ) == sum.mantissa * (pow10(a.scale as nat) * pow10(b.scale as nat))
}

/// `p` is within one unit of its last place of the exact product.
pub open spec fn near_product(a: Decimal, b: Decimal, p: Decimal) -> bool {
    let unit = pow10((a.scale + b.scale - p.scale) as nat);
    &&& p.scale <= a.scale + b.scale
    &&& p.mantissa * unit - unit <= a.mantissa * b.mantissa <= p.mantissa * unit + unit
}

/// The divisor is `10^k` and the quotient needs no rounding.
pub open spec fn exact_quotient(a: Decimal, divisor: u64, k: nat) -> bool {
    &&& divisor == pow10(k)
    &&& k <= 9
    &&& -0x1_0000_0000_0000_0000 < a.mantissa < 0x1_0000_0000_0000_0000
    &&& a.scale + k <= MAX_SCALE
}

/// `rust_decimal::Decimal::from_str`.
///
/// Success, mantissa, scale and the text of the error depend on the text alone. A text of at most
/// 28 digits, with at most one point between digits, gives all its digits as the mantissa and the
/// number of digits behind the point as the scale. What the other accepted texts give (signs, `_`,
/// exponents, more digits), and how an error reads, is only named.
#[verifier::external_body]
fn parse_outside(text: &str) -> (r: Result<Decimal, String>)
    ensures
        reading(r) == decimal_reading(text@),
        r is Ok ==> r->Ok_0.valid(),
        forall|whole: Seq<char>, frac: Seq<char>| #[trigger]
            plain_form(text@, whole, frac) ==> read_parts(r) == Some(plain_parts(whole, frac)),
{
    let d = rust_decimal::Decimal::from_str(text).map_err(|e| e.to_string())?;
    Ok(Decimal { mantissa: d.mantissa(), scale: d.scale() })
}

/// `rust_decimal::Decimal::checked_mul`.
///
/// The result depends on the operands alone. A product whose mantissa fits in 96 bits and whose
/// scale fits in 28 places is exact, with the scales added, and a zero product has scale 0. Every
/// product is within one unit of its last place of the exact one. What products are rounded to,
/// and which of them fail, is otherwise only named.
#[verifier::external_body]
fn multiply_outside(a: Decimal, b: Decimal) -> (r: Option<Decimal>)
    requires
        a.valid(),
        b.valid(),
    ensures
        parts(r) == decimal_product(a.mantissa, a.scale, b.mantissa, b.scale),
        r is Some ==> r->Some_0.valid(),
        exact_product(a, b) ==> parts(r) == Some(product_parts(a, b)),
        r is Some ==> near_product(a, b, r->Some_0),
{
    let x = rust_decimal::Decimal::from_i128_with_scale(a.mantissa, a.scale);
    let y = rust_decimal::Decimal::from_i128_with_scale(b.mantissa, b.scale);
    x.checked_mul(y).map(|d| Decimal { mantissa: d.mantissa(), scale: d.scale() })
}

/// `rust_decimal::Decimal::checked_add`.
///
/// The result depends on the operands alone. Mantissas of at most 64 bits at scales not far apart
/// are added without loss. What other sums are rounded to, and which of them fail, is only named.
#[verifier::external_body]
fn add_outside(a: Decimal, b: Decimal) -> (r: Option<Decimal>)
    requires
        a.valid(),
        b.valid(),
    ensures
        parts(r) == decimal_sum(a.mantissa, a.scale, b.mantissa, b.scale),
        r is Some ==> r->Some_0.valid(),
        exact_sum(a, b) ==> r is Some,
        exact_sum(a, b) ==> is_sum(a, b, r->Some_0),
{
    let x = rust_decimal::Decimal::from_i128_with_scale(a.mantissa, a.scale);
    let y = rust_decimal::Decimal::from_i128_with_scale(b.mantissa, b.scale);
    x.checked_add(y).map(|d| Decimal { mantissa: d.mantissa(), scale: d.scale() })
}

/// `rust_decimal::Decimal::checked_sub`.
///
/// The result depends on the operands alone. Mantissas of at most 64 bits at scales not far apart
/// are subtracted without loss. What other differences are rounded to, and which of them fail, is
/// only named.
#[verifier::external_body]
fn subtract_outside(a: Decimal, b: Decimal) -> (r: Option<Decimal>)
    requires
        a.valid(),
        b.valid(),
    ensures
        parts(r) == decimal_difference(a.mantissa, a.scale, b.mantissa, b.scale),
        r is Some ==> r->Some_0.valid(),
        exact_sum(a, b) ==> r is Some,
        exact_sum(a, b) ==> is_sum(r->Some_0, b, a),
{
    let x = rust_decimal::Decimal::from_i128_with_scale(a.mantissa, a.scale);
    let y = rust_decimal::Decimal::from_i128_with_scale(b.mantissa, b.scale);
    x.checked_sub(y).map(|d| Decimal { mantissa: d.mantissa(), scale: d.scale() })
}

/// `rust_decimal::Decimal::normalize`: cuts the zeros at the end of the places, and gives zero no
/// places.
#[verifier::external_body]
fn normalize_outside(a: Decimal) -> (r: Decimal)
    requires
        a.valid(),
    ensures
        r.valid(),
        (r.mantissa as int, r.scale as nat) == without_zeros(a.mantissa as int, a.scale as nat),
{
    let d = rust_decimal::Decimal::from_i128_with_scale(a.mantissa, a.scale).normalize();
    Decimal { mantissa: d.mantissa(), scale: d.scale() }
}

/// `/` of `rust_decimal::Decimal`, by an integer below 2^32.
///
/// The result depends on the operands alone. A dividend of at most 64 bits over a power of ten is
/// divided without loss as long as the quotient needs at most 28 places, and zeros at its end are
/// cut, at least down to the places that a shift of the point by two or more adds. What other
/// quotients are rounded to is only named.
#[verifier::external_body]
fn divide_outside(a: Decimal, divisor: u64) -> (r: Decimal)
    requires
        a.valid(),
        0 < divisor < 0x1_0000_0000,
    ensures
        r.valid(),
        (r.mantissa, r.scale) == decimal_quotient(a.mantissa, a.scale, divisor),
        forall|k: nat|
            exact_quotient(a, divisor, k) ==> r.is_ratio(
                a.mantissa as int,
                #[trigger] pow10(a.scale as nat + k),
            ),
        forall|k: nat|
            2 <= k && #[trigger] exact_quotient(a, divisor, k) ==> r.scale <= a.scale + k,
{
    let x = rust_decimal::Decimal::from_i128_with_scale(a.mantissa, a.scale);
    let d = x / rust_decimal::Decimal::from(divisor);
    Decimal { mantissa: d.mantissa(), scale: d.scale() }
}

/// `<` of `rust_decimal::Decimal`: compares the numbers, whatever their scales.
#[verifier::external_body]
fn less_outside(a: Decimal, b: Decimal) -> (r: bool)
    requires
        a.valid(),
        b.valid(),
    ensures
        r == a.below(b),
{
    rust_decimal::Decimal::from_i128_with_scale(a.mantissa, a.scale)
        < rust_decimal::Decimal::from_i128_with_scale(b.mantissa, b.scale)
}

/// `to_string` of `rust_decimal::Decimal`: a sign ahead of a negative number, its whole part, and
/// its places behind a point, where it has places.
#[verifier::external_body]
fn display_outside(a: Decimal) -> (r: String)
    requires
        a.valid(),
    ensures
        r@ == decimal_display(a.mantissa, a.scale),
{
    rust_decimal::Decimal::from_i128_with_scale(a.mantissa, a.scale).to_string()
}

/// Ten to the power of `n`.
pub fn power_of_ten(n: u32) -> (r: i128)
    requires
        n <= 28,
    ensures
        r == pow10(n as nat),
        0 < r <= 10_000_000_000_000_000_000_000_000_000,
{
    proof {
        lemma_pow10_values();
    }
    let mut r: i128 = 1;
    let mut i: u32 = 0;
    while i < n
        invariant
            i <= n <= 28,
            r == pow10(i as nat),
        decreases n - i,
    {
        proof {
            lemma_pow10_values();
            lemma_pow10_monotonic(i as nat + 1, 28);
        }
        r = r * 10;
        i += 1;
    }
    proof {
        lemma_pow10_monotonic(n as nat, 28);
    }
    r
}

pub proof fn lemma_pow10_positive(n: nat)
    ensures
        pow10(n) > 0,
    decreases n,
{
    if n > 0 {
        lemma_pow10_positive((n - 1) as nat);
    }
}

pub proof fn lemma_pow10_monotonic(a: nat, b: nat)
    requires
        a <= b,
    ensures
        0 < pow10(a) <= pow10(b),
    decreases b,
{
    lemma_pow10_positive(a);
    if a < b {
        lemma_pow10_monotonic(a, (b - 1) as nat);
    }
}

pub proof fn lemma_pow10_adds(a: nat, b: nat)
    ensures
        pow10(a + b) == pow10(a) * pow10(b),
    decreases a,
{
    if a > 0 {
        lemma_pow10_adds((a - 1) as nat, b);
        assert(10 * (pow10((a - 1) as nat) * pow10(b)) == (10 * pow10((a - 1) as nat)) * pow10(b))
            by (nonlinear_arith);
    }
}

pub proof fn lemma_pow10_values()
    ensures
        pow10(0) == 1,
        pow10(1) == 10,
        pow10(2) == 100,
        pow10(3) == 1_000,
        pow10(4) == 10_000,
        pow10(5) == 100_000,
        pow10(6) == 1_000_000,
        pow10(7) == 10_000_000,
        pow10(8) == 100_000_000,
        pow10(9) == 1_000_000_000,
        pow10(28) == 10_000_000_000_000_000_000_000_000_000int,
{
    reveal_with_fuel(pow10, 30);
}

/// Negative numbers from -1/2 up round to zero, the others to a negative integer.
proof fn lemma_round_negative(m: int, d: int)
    requires
        m > 0,
        d > 0,
    ensures
        2 * m <= d ==> round_half_even(-m, d) == 0,
        2 * m > d ==> round_half_even(-m, d) < 0,
{
    let q = (-m) / d;
    let r = (-m) % d;
    assert(-m == d * q + r && 0 <= r < d) by (nonlinear_arith)
        requires
            d > 0,
            q == (-m) / d,
            r == (-m) % d,
    ;
    assert(q <= -1) by (nonlinear_arith)
        requires
            -m == d * q + r,
            0 <= r < d,
            m > 0,
            d > 0,
    ;
    if 2 * m <= d {
        assert(q == -1) by (nonlinear_arith)
            requires
                -m == d * q + r,
                0 <= r < d,
                2 * m <= d,
                m > 0,
                d > 0,
                q <= -1,
        ;
    }
    if q == -1 {
        assert(d * q == -d) by (nonlinear_arith)
            requires
                q == -1,
        ;
    }
}

/// Rounding moves a number by at most one half, to the even integer of two equally near.
pub proof fn law_rounding_is_to_the_nearest(n: int, d: int)
    requires
        d > 0,
    ensures
        -d <= 2 * (round_half_even(n, d) * d - n) <= d,
        2 * (round_half_even(n, d) * d - n) == d || 2 * (round_half_even(n, d) * d - n) == -d
            ==> round_half_even(n, d) % 2 == 0,
{
    let q = n / d;
    let r = n % d;
    assert(n == d * q + r && 0 <= r < d) by (nonlinear_arith)
        requires
            d > 0,
            q == n / d,
            r == n % d,
    ;
    assert(q * d == d * q && (q + 1) * d == d * q + d) by (nonlinear_arith);
}

} // verus!
