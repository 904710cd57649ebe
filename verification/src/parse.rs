//! Instruments, book deltas and quotes from clob-index resources.

use vstd::prelude::*;

use crate::common::amounts;
use crate::common::consts::{LIGHTPOOL, TOKEN_SCALE};
use crate::common::currency;
use crate::common::currency::Currency;
use crate::config::Environment;
use crate::decimal;
use crate::decimal::Decimal;
use crate::fixed;
use crate::fixed::{Price, Quantity, PRICE_RAW_MAX, QUANTITY_RAW_MAX};
use crate::http::models::{BookLevel, BookSnapshot, Market};
use crate::model::{Instrument, InstrumentId, InstrumentKind, OrderSide};
use crate::params;
use crate::params::{ParamValue, ParamView, Params};
use crate::text;
use crate::websocket::models::{QuoteDelta, QuoteSnapshot};

verus! {

#[derive(Clone, Copy, Debug, PartialEq, Eq, Structural)]
pub enum LightpoolOutcome {
    Yes,
    No,
}

impl LightpoolOutcome {
    pub open spec fn label(self) -> Seq<char> {
        match self {
            LightpoolOutcome::Yes => "yes"@,
            LightpoolOutcome::No => "no"@,
        }
    }

    /// The ending of the outcome's symbol.
    pub open spec fn suffix(self) -> Seq<char> {
        match self {
            LightpoolOutcome::Yes => "-YES"@,
            LightpoolOutcome::No => "-NO"@,
        }
    }

    /// The outcome's token.
    pub open spec fn token(self, market: Market) -> Seq<char> {
        match self {
            LightpoolOutcome::Yes => market.yes_token@,
            LightpoolOutcome::No => market.no_token@,
        }
    }

    pub fn as_str(self) -> (r: &'static str)
        ensures
            r@ == self.label(),
    {
        match self {
            LightpoolOutcome::Yes => "yes",
            LightpoolOutcome::No => "no",
        }
    }
}

/// Why a resource was refused.
#[derive(Debug)]
pub enum ParseError {
    /// The price is no number.
    InvalidCents { price: String, cause: String },
    /// The price is out of range.
    InvalidPrice { price: String, cause: String },
    /// The size is no number, negative or out of range.
    InvalidSize { size: String, cause: String },
    /// The tick size is out of range.
    InvalidTickSize { tick_size_raw: u64, cause: String },
    /// The tick size is zero.
    TickSizeNotPositive,
    /// A size that is not zero rounds to zero.
    SizeNotPositive,
    /// There is no level.
    EmptyDelta,
}

/// A refusal by its texts.
pub enum ParseErrorView {
    InvalidCents { price: Seq<char>, cause: Seq<char> },
    InvalidPrice { price: Seq<char>, cause: Seq<char> },
    InvalidSize { size: Seq<char>, cause: Seq<char> },
    InvalidTickSize { tick_size_raw: u64, cause: Seq<char> },
    TickSizeNotPositive,
    SizeNotPositive,
    EmptyDelta,
}

impl View for ParseError {
    type V = ParseErrorView;

    open spec fn view(&self) -> ParseErrorView {
        match *self {
            ParseError::InvalidCents { price, cause } => ParseErrorView::InvalidCents {
                price: price@,
                cause: cause@,
            },
            ParseError::InvalidPrice { price, cause } => ParseErrorView::InvalidPrice {
                price: price@,
                cause: cause@,
            },
            ParseError::InvalidSize { size, cause } => ParseErrorView::InvalidSize {
                size: size@,
                cause: cause@,
            },
            ParseError::InvalidTickSize { tick_size_raw, cause } => {
                ParseErrorView::InvalidTickSize { tick_size_raw, cause: cause@ }
            },
            ParseError::TickSizeNotPositive => ParseErrorView::TickSizeNotPositive,
            ParseError::SizeNotPositive => ParseErrorView::SizeNotPositive,
            ParseError::EmptyDelta => ParseErrorView::EmptyDelta,
        }
    }
}

impl ParseErrorView {
    pub open spec fn text(self) -> Seq<char> {
        match self {
            ParseErrorView::InvalidCents { price, cause } => "invalid cents price '"@ + price
                + "': "@ + cause,
            ParseErrorView::InvalidPrice { price, cause } => "invalid price '"@ + price + "': "@
                + cause,
            ParseErrorView::InvalidSize { size, cause } => "invalid size '"@ + size + "': "@
                + cause,
            ParseErrorView::InvalidTickSize { tick_size_raw, cause } => "invalid tick size "@
                + text::decimal_text(tick_size_raw as nat) + ": "@ + cause,
            ParseErrorView::TickSizeNotPositive =>
            "invalid `Price` for 'price_increment' not positive, was 0.000000"@,
            ParseErrorView::SizeNotPositive =>
            "invalid `Quantity` for 'order.size' not positive, was 0.000000"@,
            ParseErrorView::EmptyDelta => "empty orderbook delta"@,
        }
    }
}

/// A quoted value that was refused, with the reason.
fn refused(start: &str, value: &str, cause: &str) -> (r: String)
    ensures
        r@ == start@ + value@ + "': "@ + cause@,
{
    let mut r: String = text::append(start, value);
    r.append("': ");
    r.append(cause);
    r
}

impl ParseError {
    /// The refusal in words.
    pub fn message(&self) -> (r: String)
        ensures
            r@ == self@.text(),
    {
        match self {
            ParseError::InvalidCents { price, cause } => refused(
                "invalid cents price '",
                price.as_str(),
                cause.as_str(),
            ),
            ParseError::InvalidPrice { price, cause } => refused(
                "invalid price '",
                price.as_str(),
                cause.as_str(),
            ),
            ParseError::InvalidSize { size, cause } => refused(
                "invalid size '",
                size.as_str(),
                cause.as_str(),
            ),
            ParseError::InvalidTickSize { tick_size_raw, cause } => {
                let mut r: String = text::append(
                    "invalid tick size ",
                    text::u64_text(*tick_size_raw).as_str(),
                );
                r.append(": ");
                r.append(cause.as_str());
                r
            },
            ParseError::TickSizeNotPositive =>
            "invalid `Price` for 'price_increment' not positive, was 0.000000".to_owned(),
            ParseError::SizeNotPositive =>
            "invalid `Quantity` for 'order.size' not positive, was 0.000000".to_owned(),
            ParseError::EmptyDelta => "empty orderbook delta".to_owned(),
        }
    }
}

/// What was read, or the refusal by its texts.
pub open spec fn viewed<T>(r: Result<T, ParseError>) -> Result<T, ParseErrorView> {
    match r {
        Ok(value) => Ok(value),
        Err(e) => Err(e@),
    }
}

/// A binary option: one outcome of a market.
#[derive(Debug)]
pub struct BinaryOption {
    pub instrument: Instrument,
    pub currency: Currency,
    pub activation_ns: u64,
    pub expiration_ns: u64,
    pub price_precision: u8,
    pub size_precision: u8,
    pub price_increment: Price,
    pub size_increment: Quantity,
    pub description: String,
    pub max_price: Price,
    pub min_price: Price,
    pub ts_event: u64,
    pub ts_init: u64,
}

/// Nanoseconds of a second.
pub const NANOS_PER_SECOND: u64 = 1_000_000_000;

/// Decimal places of prices and sizes.
pub const PRECISION: u8 = 6;

/// The parameters of an outcome's instrument.
pub open spec fn outcome_info(
    market: Market,
    outcome: LightpoolOutcome,
    spot_market: Seq<char>,
    tick_size_raw: u64,
) -> Seq<(Seq<char>, ParamView)> {
    seq![
        ("tick_size_raw"@, ParamView::Unsigned(tick_size_raw)),
        ("market_slug"@, ParamView::Text(market.slug@)),
        ("market_id"@, ParamView::Text(market.id@)),
        ("outcome"@, ParamView::Text(outcome.label())),
        ("spot_market"@, ParamView::Text(spot_market)),
        ("collateral_token"@, ParamView::Text(market.collateral_token@)),
        ("outcome_token"@, ParamView::Text(outcome.token(market))),
        ("question"@, ParamView::Text(market.question@)),
    ]
}

/// The instrument `b` is the outcome `outcome` of `market`.
pub open spec fn is_outcome_of(
    b: BinaryOption,
    market: Market,
    outcome: LightpoolOutcome,
    spot_market: Seq<char>,
    tick_size_raw: u64,
    ts_init: u64,
) -> bool {
    &&& b.instrument.id@ == (market.slug@ + outcome.suffix(), LIGHTPOOL@)
    &&& b.instrument.raw_symbol@ == spot_market
    &&& b.instrument.kind == InstrumentKind::BinaryOption
    &&& params::string_view(b.instrument.outcome) == Some(outcome.label())
    &&& b.instrument.info matches Some(info) && info@ == outcome_info(
        market,
        outcome,
        spot_market,
        tick_size_raw,
    )
    &&& b.activation_ns == 0
    &&& b.expiration_ns == market.resolution_deadline * NANOS_PER_SECOND
    &&& b.price_precision == PRECISION
    &&& b.size_precision == PRECISION
    &&& b.price_increment == (Price { raw: (tick_size_raw * 1_000) as i64, precision: PRECISION })
    &&& b.size_increment == (Quantity { raw: 1_000, precision: PRECISION })
    &&& b.description@ == market.question@
    &&& b.max_price == (Price { raw: 1_000_000_000, precision: 0 })
    &&& b.min_price == (Price { raw: 0, precision: 0 })
    &&& b.ts_event == ts_init
    &&& b.ts_init == ts_init
}

/// The tick size is more than a price can be.
pub open spec fn tick_too_large(tick_size_raw: u64) -> bool {
    tick_size_raw * 1_000 > PRICE_RAW_MAX
}

/// Why a tick size is refused, where it is.
pub open spec fn tick_refusal(tick_size_raw: u64) -> Option<ParseErrorView> {
    if tick_too_large(tick_size_raw) {
        let (mantissa, scale) = decimal::decimal_quotient(tick_size_raw as i128, 0, TOKEN_SCALE);
        Some(
            ParseErrorView::InvalidTickSize {
                tick_size_raw,
                cause: fixed::price_refusal(mantissa, scale, PRECISION),
            },
        )
    } else if tick_size_raw == 0 {
        Some(ParseErrorView::TickSizeNotPositive)
    } else {
        None
    }
}

/// The deadline of a market is a time in nanoseconds.
pub open spec fn deadline_fits(market: Market) -> bool {
    market.resolution_deadline * NANOS_PER_SECOND <= u64::MAX
}

/// The tick size is that of no instrument: it is zero or too large.
pub open spec fn tick_refused(tick_size_raw: u64) -> bool {
    tick_size_raw == 0 || tick_too_large(tick_size_raw)
}

/// An instrument can be made of a spot market that is named, or its tick size is refused: one that
/// is too large before the deadline of the market is read.
pub open spec fn outcome_fits(market: Market, spot_market: Seq<char>, tick_size_raw: u64) -> bool {
    &&& text::trimmed(spot_market).len() > 0
    &&& !tick_too_large(tick_size_raw) ==> deadline_fits(market)
}

/// Both instruments can be made of a market, or a tick size of it is refused. The NO spot market is
/// not read where the YES tick size is refused.
pub open spec fn market_fits(market: Market, ticks: (u64, u64)) -> bool {
    &&& outcome_fits(market, market.yes_spot_market@, ticks.0)
    &&& !tick_refused(ticks.0) ==> outcome_fits(market, market.no_spot_market@, ticks.1)
}

/// `key` is no name of `taken`.
proof fn lemma_unset(info: Params, names: Seq<Seq<char>>, key: Seq<char>)
    requires
        info@.len() == names.len(),
        forall|i: int| 0 <= i < names.len() ==> info@[i].0 == #[trigger] names[i],
        forall|i: int| 0 <= i < names.len() ==> #[trigger] names[i] != key,
    ensures
        params::param(Some(info), key) is None,
{
    assert forall|i: int| 0 <= i < info.entries@.len() implies #[trigger] info.entries@[i].0@
        != key by {
        assert(info@[i].0 == names[i]);
    }
    params::lemma_entry_index(info.entries@, key, info.entries@.len() as int);
}

/// The names of the parameters of an outcome's instrument are distinct.
proof fn lemma_info_names()
    ensures
        seq![
            "tick_size_raw"@,
            "market_slug"@,
            "market_id"@,
            "outcome"@,
            "spot_market"@,
            "collateral_token"@,
            "outcome_token"@,
            "question"@,
        ].no_duplicates(),
{
    reveal_strlit("tick_size_raw");
    reveal_strlit("market_slug");
    reveal_strlit("market_id");
    reveal_strlit("outcome");
    reveal_strlit("spot_market");
    reveal_strlit("collateral_token");
    reveal_strlit("outcome_token");
    reveal_strlit("question");
    assert("tick_size_raw"@[0] == 't' && "tick_size_raw"@.len() == 13);
    assert("market_slug"@[0] == 'm' && "market_slug"@[7] == 's' && "market_slug"@.len() == 11);
    assert("market_id"@.len() == 9);
    assert("outcome"@.len() == 7);
    assert("spot_market"@[0] == 's' && "spot_market"@.len() == 11);
    assert("collateral_token"@.len() == 16);
    assert("outcome_token"@[0] == 'o' && "outcome_token"@.len() == 13);
    assert("question"@.len() == 8);
}

fn build_info(
    market: &Market,
    outcome: LightpoolOutcome,
    spot_market: &str,
    tick_size_raw: u64,
) -> (info: Params)
    ensures
        info@ == outcome_info(*market, outcome, spot_market@, tick_size_raw),
{
    let outcome_token: &String = match outcome {
        LightpoolOutcome::Yes => &market.yes_token,
        LightpoolOutcome::No => &market.no_token,
    };
    let ghost names = seq![
        "tick_size_raw"@,
        "market_slug"@,
        "market_id"@,
        "outcome"@,
        "spot_market"@,
        "collateral_token"@,
        "outcome_token"@,
        "question"@,
    ];
    proof {
        lemma_info_names();
    }
    let mut info: Params = Params::new();
    proof {
        lemma_unset(info, names.take(0), names[0]);
    }
    info.set("tick_size_raw", ParamValue::Unsigned(tick_size_raw));
    proof {
        lemma_unset(info, names.take(1), names[1]);
    }
    info.set("market_slug", ParamValue::Text(market.slug.clone()));
    proof {
        lemma_unset(info, names.take(2), names[2]);
    }
    info.set("market_id", ParamValue::Text(market.id.clone()));
    proof {
        lemma_unset(info, names.take(3), names[3]);
    }
    info.set("outcome", ParamValue::Text(outcome.as_str().to_owned()));
    proof {
        lemma_unset(info, names.take(4), names[4]);
    }
    info.set("spot_market", ParamValue::Text(spot_market.to_owned()));
    proof {
        lemma_unset(info, names.take(5), names[5]);
    }
    info.set("collateral_token", ParamValue::Text(market.collateral_token.clone()));
    proof {
        lemma_unset(info, names.take(6), names[6]);
    }
    info.set("outcome_token", ParamValue::Text(outcome_token.clone()));
    proof {
        lemma_unset(info, names.take(7), names[7]);
    }
    info.set("question", ParamValue::Text(market.question.clone()));
    assert(info@ =~= outcome_info(*market, outcome, spot_market@, tick_size_raw));
    info
}

/// The instrument of an outcome, priced in `currency`.
pub fn create_instrument_in(
    market: &Market,
    outcome: LightpoolOutcome,
    spot_market: &str,
    tick_size_raw: u64,
    currency: Currency,
    ts_init: u64,
) -> (r: Result<BinaryOption, ParseError>)
    requires
        outcome_fits(*market, spot_market@, tick_size_raw),
    ensures
        match tick_refusal(tick_size_raw) {
            Some(e) => viewed(r) == Err::<BinaryOption, ParseErrorView>(e),
            None => r matches Ok(b) && is_outcome_of(
                b,
                *market,
                outcome,
                spot_market@,
                tick_size_raw,
                ts_init,
            ) && b.currency == currency,
        },
{
    let mut symbol: String = market.slug.clone();
    symbol.append(
        match outcome {
            LightpoolOutcome::Yes => "-YES",
            LightpoolOutcome::No => "-NO",
        },
    );
    let tick: Decimal = amounts::raw_to_decimal(tick_size_raw);
    proof {
        fixed::lemma_millionths(tick, tick_size_raw as int);
    }
    let price_increment: Price = match Price::from_decimal_dp(tick, PRECISION) {
        Ok(price) => price,
        Err(cause) => {
            return Err(ParseError::InvalidTickSize { tick_size_raw, cause });
        },
    };
    if price_increment.raw <= 0 {
        return Err(ParseError::TickSizeNotPositive);
    }
    let info: Params = build_info(market, outcome, spot_market, tick_size_raw);
    Ok(
        BinaryOption {
            instrument: Instrument {
                id: InstrumentId { symbol, venue: LIGHTPOOL.to_owned() },
                raw_symbol: spot_market.to_owned(),
                kind: InstrumentKind::BinaryOption,
                outcome: Some(outcome.as_str().to_owned()),
                info: Some(info),
            },
            currency,
            activation_ns: 0,
            expiration_ns: market.resolution_deadline * NANOS_PER_SECOND,
            price_precision: price_increment.precision,
            size_precision: PRECISION,
            price_increment,
            size_increment: Quantity { raw: 1_000, precision: PRECISION },
            description: market.question.clone(),
            max_price: Price { raw: 1_000_000_000, precision: 0 },
            min_price: Price { raw: 0, precision: 0 },
            ts_event: ts_init,
            ts_init,
        },
    )
}

/// The instrument of an outcome, priced in the collateral currency.
pub fn create_instrument(
    market: &Market,
    outcome: LightpoolOutcome,
    spot_market: &str,
    tick_size_raw: u64,
    env: &Environment,
    ts_init: u64,
) -> (r: Result<BinaryOption, ParseError>)
    requires
        outcome_fits(*market, spot_market@, tick_size_raw),
    ensures
        match tick_refusal(tick_size_raw) {
            Some(e) => viewed(r) == Err::<BinaryOption, ParseErrorView>(e),
            None => r matches Ok(b) && is_outcome_of(
                b,
                *market,
                outcome,
                spot_market@,
                tick_size_raw,
                ts_init,
            ) && b.currency.code@ == currency::collateral_code(*env),
        },
{
    let currency: Currency = currency::collateral_currency(env);
    create_instrument_in(market, outcome, spot_market, tick_size_raw, currency, ts_init)
}

/// Both instruments of a market, YES first.
pub fn instruments_for_market(
    market: &Market,
    yes_tick_size_raw: u64,
    no_tick_size_raw: u64,
    env: &Environment,
    ts_init: u64,
) -> (r: Result<Vec<BinaryOption>, ParseError>)
    requires
        market_fits(*market, (yes_tick_size_raw, no_tick_size_raw)),
    ensures
        match (tick_refusal(yes_tick_size_raw), tick_refusal(no_tick_size_raw)) {
            (Some(e), _) => viewed(r) == Err::<Vec<BinaryOption>, ParseErrorView>(e),
            (None, Some(e)) => viewed(r) == Err::<Vec<BinaryOption>, ParseErrorView>(e),
            (None, None) => r matches Ok(v) && v@.len() == 2 && is_outcome_of(
                v@[0],
                *market,
                LightpoolOutcome::Yes,
                market.yes_spot_market@,
                yes_tick_size_raw,
                ts_init,
            ) && is_outcome_of(
                v@[1],
                *market,
                LightpoolOutcome::No,
                market.no_spot_market@,
                no_tick_size_raw,
                ts_init,
            ) && v@[0].currency.code@ == currency::collateral_code(*env)
                && v@[1].currency.code@ == currency::collateral_code(*env),
        },
{
    let yes: BinaryOption = match create_instrument(
        market,
        LightpoolOutcome::Yes,
        market.yes_spot_market.as_str(),
        yes_tick_size_raw,
        env,
        ts_init,
    ) {
        Ok(option) => option,
        Err(e) => {
            return Err(e);
        },
    };
    let no: BinaryOption = match create_instrument(
        market,
        LightpoolOutcome::No,
        market.no_spot_market.as_str(),
        no_tick_size_raw,
        env,
        ts_init,
    ) {
        Ok(option) => option,
        Err(e) => {
            return Err(e);
        },
    };
    let mut r: Vec<BinaryOption> = Vec::new();
    r.push(yes);
    r.push(no);
    Ok(r)
}

/// The price that a text in cents writes: a hundredth of it, to six places.
pub open spec fn price_read(text: Seq<char>) -> Result<Price, ParseErrorView> {
    match decimal::parsed_decimal(text::trimmed(text)) {
        Some((m, s)) => {
            let (mantissa, scale) = decimal::decimal_quotient(m, s, 100);
            match fixed::price_of(Decimal { mantissa, scale }, PRECISION) {
                Some(price) => Ok(price),
                None => Err(
                    ParseErrorView::InvalidPrice {
                        price: text,
                        cause: fixed::price_refusal(mantissa, scale, PRECISION),
                    },
                ),
            }
        },
        None => Err(
            ParseErrorView::InvalidCents {
                price: text,
                cause: decimal::parse_refusal(text::trimmed(text)),
            },
        ),
    }
}

/// The size that a text writes, to six places.
pub open spec fn size_read(text: Seq<char>) -> Result<Quantity, ParseErrorView> {
    match decimal::parsed_decimal(text::trimmed(text)) {
        Some((mantissa, scale)) => match fixed::quantity_of(
            Decimal { mantissa, scale },
            PRECISION,
        ) {
            Some(size) => Ok(size),
            None => Err(
                ParseErrorView::InvalidSize {
                    size: text,
                    cause: fixed::quantity_refusal(mantissa, scale, PRECISION),
                },
            ),
        },
        None => Err(
            ParseErrorView::InvalidSize {
                size: text,
                cause: decimal::parse_refusal(text::trimmed(text)),
            },
        ),
    }
}

fn cents_to_decimal(price: &str) -> (r: Result<Decimal, String>)
    ensures
        decimal::read_parts(r) == (match decimal::parsed_decimal(text::trimmed(price@)) {
            Some((m, s)) => Some(decimal::decimal_quotient(m, s, 100)),
            None => None,
        }),
        r matches Ok(d) ==> d.valid(),
        r matches Err(cause) ==> cause@ == decimal::parse_refusal(text::trimmed(price@)),
        forall|raw: u64|
            raw * 100 <= u64::MAX && price@ == #[trigger] amounts::cents_text(raw as nat) ==> r
                is Ok && r->Ok_0.is_ratio(raw as int, 1_000_000),
        forall|whole: Seq<char>, frac: Seq<char>|
            #[trigger] decimal::plain_form(text::trimmed(price@), whole, frac) && frac.len() <= 4
                && whole.len() + frac.len() <= 10 ==> r is Ok && r->Ok_0.is_ratio(
                text::number_of(whole + frac) as int,
                decimal::pow10(frac.len() + 2),
            ),
{
    let body: String = text::trim(price);
    match Decimal::parse(body.as_str()) {
        Ok(value) => {
            let quotient: Decimal = value.divide(100);
            proof {
                assert forall|whole: Seq<char>, frac: Seq<char>|
                    #[trigger] decimal::plain_form(text::trimmed(price@), whole, frac)
                        && frac.len() <= 4 && whole.len() + frac.len()
                        <= 10 implies quotient.is_ratio(
                    text::number_of(whole + frac) as int,
                    decimal::pow10(frac.len() + 2),
                ) by {
                    lemma_short_number(whole + frac);
                    decimal::lemma_pow10_values();
                    reveal_with_fuel(decimal::pow10, 12);
                    assert(text::number_of(whole + frac) as i128 == text::number_of(whole + frac));
                    assert(decimal::exact_quotient(value, 100, 2));
                    assert(quotient.is_ratio(
                        value.mantissa as int,
                        decimal::pow10(value.scale as nat + 2),
                    ));
                }
                assert forall|raw: u64|
                    raw * 100 <= u64::MAX && price@ == #[trigger] amounts::cents_text(
                        raw as nat,
                    ) implies quotient.is_ratio(raw as int, 1_000_000) by {
                    amounts::lemma_cents_text(raw);
                    decimal::lemma_pow10_values();
                    let k = value.scale as nat;
                    assert(decimal::exact_quotient(value, 100, 2));
                    assert(quotient.is_ratio(value.mantissa as int, decimal::pow10(k + 2)));
                    decimal::lemma_pow10_adds(k, 2);
                    decimal::lemma_pow10_positive(k);
                    let unit = decimal::pow10(k);
                    let q = decimal::pow10(quotient.scale as nat);
                    assert(quotient.mantissa * 1_000_000 == raw * q) by (nonlinear_arith)
                        requires
                            quotient.mantissa * (unit * 100) == value.mantissa * q,
                            value.mantissa * 1_000_000 == raw * 100 * unit,
                            unit > 0,
                    ;
                }
            }
            Ok(quotient)
        },
        Err(cause) => {
            proof {
                assert forall|raw: u64|
                    raw * 100 <= u64::MAX && price@ == #[trigger] amounts::cents_text(
                        raw as nat,
                    ) implies false by {
                    amounts::lemma_cents_text(raw);
                }
            }
            Err(cause)
        },
    }
}

/// Reads a price in cents.
///
/// Reading back what [`amounts::format_price_pieces`] wrote gives the same price.
pub fn parse_price(price: &str) -> (r: Result<Price, ParseError>)
    ensures
        viewed(r) == price_read(price@),
        r matches Ok(p) ==> p.valid() && p.precision == PRECISION,
        forall|raw: u64|
            raw * 1_000 <= PRICE_RAW_MAX && price@ == #[trigger] amounts::cents_text(raw as nat)
                ==> r == Ok::<Price, ParseError>(
                Price { raw: (raw * 1_000) as i64, precision: PRECISION },
            ),
        forall|whole: Seq<char>, frac: Seq<char>|
            #[trigger] decimal::plain_form(text::trimmed(price@), whole, frac) && frac.len() <= 4
                && whole.len() + frac.len() <= 10 ==> (r matches Ok(p) && p.raw
                == text::number_of(whole + frac) * decimal::pow10((7 - frac.len()) as nat)),
{
    match cents_to_decimal(price) {
        Ok(value) => {
            proof {
                assert forall|whole: Seq<char>, frac: Seq<char>|
                    #[trigger] decimal::plain_form(text::trimmed(price@), whole, frac)
                        && frac.len() <= 4 && whole.len() + frac.len() <= 10 implies ({
                    let raw = text::number_of(whole + frac) * decimal::pow10(
                        (7 - frac.len()) as nat,
                    );
                    fixed::fixed_raw(value, 6) == raw && 0 <= raw <= PRICE_RAW_MAX
                }) by {
                    lemma_plain_cents(value, whole, frac);
                }
                assert forall|raw: u64|
                    raw * 1_000 <= PRICE_RAW_MAX && price@ == #[trigger] amounts::cents_text(
                        raw as nat,
                    ) implies fixed::fixed_raw(value, 6) == raw * 1_000 by {
                    fixed::lemma_millionths(value, raw as int);
                }
            }
            match Price::from_decimal_dp(value, PRECISION) {
                Ok(price) => Ok(price),
                Err(cause) => Err(ParseError::InvalidPrice { price: price.to_owned(), cause }),
            }
        },
        Err(cause) => Err(ParseError::InvalidCents { price: price.to_owned(), cause }),
    }
}

/// Reads a size.
///
/// Reading back what [`amounts::format_token_amount`] wrote gives the same size.
pub fn parse_quantity(size: &str) -> (r: Result<Quantity, ParseError>)
    ensures
        viewed(r) == size_read(size@),
        r matches Ok(q) ==> q.valid() && q.precision == PRECISION,
        forall|raw: u64|
            raw * 1_000 <= QUANTITY_RAW_MAX && size@ == #[trigger] amounts::token_text(raw as nat)
                ==> r == Ok::<Quantity, ParseError>(
                Quantity { raw: (raw * 1_000) as u64, precision: PRECISION },
            ),
        forall|whole: Seq<char>, frac: Seq<char>|
            #[trigger] decimal::plain_form(text::trimmed(size@), whole, frac) && frac.len() <= 6
                && whole.len() <= 10 ==> (r matches Ok(q) && q.raw == text::number_of(whole + frac)
                * decimal::pow10((9 - frac.len()) as nat)),
{
    let body: String = text::trim(size);
    match Decimal::parse(body.as_str()) {
        Ok(value) => {
            proof {
                assert forall|whole: Seq<char>, frac: Seq<char>|
                    #[trigger] decimal::plain_form(text::trimmed(size@), whole, frac) && frac.len()
                        <= 6 && whole.len() <= 10 implies ({
                    let raw = text::number_of(whole + frac) * decimal::pow10(
                        (9 - frac.len()) as nat,
                    );
                    fixed::fixed_raw(value, 6) == raw && 0 <= raw <= QUANTITY_RAW_MAX
                        && value.mantissa >= 0
                }) by {
                    lemma_plain_size(value, whole, frac);
                }
                assert forall|raw: u64|
                    raw * 1_000 <= QUANTITY_RAW_MAX && size@ == #[trigger] amounts::token_text(
                        raw as nat,
                    ) implies fixed::fixed_raw(value, 6) == raw * 1_000 && value.mantissa
                    >= 0 by {
                    amounts::lemma_token_text(raw);
                    fixed::lemma_millionths(value, raw as int);
                }
            }
            match Quantity::from_decimal_dp(value, PRECISION) {
                Ok(quantity) => Ok(quantity),
                Err(cause) => Err(ParseError::InvalidSize { size: size.to_owned(), cause }),
            }
        },
        Err(cause) => {
            proof {
                assert forall|raw: u64| size@ == #[trigger] amounts::token_text(
                    raw as nat,
                ) implies false by {
                    amounts::lemma_token_text(raw);
                }
            }
            Err(ParseError::InvalidSize { size: size.to_owned(), cause })
        },
    }
}

/// What a delta does to the level at its price.
#[derive(Clone, Copy, Debug, PartialEq, Eq, Structural)]
pub enum BookAction {
    Add,
    Update,
    Delete,
    Clear,
}

/// Flag of the last delta of a message.
pub const F_LAST: u8 = 128;

/// Flag of a delta of a snapshot.
pub const F_SNAPSHOT: u8 = 32;

/// A change of an order book.
#[derive(Debug)]
pub struct BookDelta {
    pub instrument_id: InstrumentId,
    pub action: BookAction,
    pub side: OrderSide,
    pub price: Price,
    pub size: Quantity,
    pub order_id: u64,
    pub flags: u8,
    pub sequence: u64,
    pub ts_event: u64,
    pub ts_init: u64,
}

/// The changes of one message. Flags, sequence and times are those of the last one.
#[derive(Debug)]
pub struct OrderBookDeltas {
    pub instrument_id: InstrumentId,
    pub deltas: Vec<BookDelta>,
    pub flags: u8,
    pub sequence: u64,
    pub ts_event: u64,
    pub ts_init: u64,
}

/// Best bid and ask.
#[derive(Debug)]
pub struct QuoteTick {
    pub instrument_id: InstrumentId,
    pub bid_price: Price,
    pub ask_price: Price,
    pub bid_size: Quantity,
    pub ask_size: Quantity,
    pub ts_event: u64,
    pub ts_init: u64,
}

/// What the deltas of one message share.
pub struct DeltaContext {
    pub instrument_id: InstrumentId,
    /// Flags of every level but the last.
    pub base_flags: u8,
    pub sequence: u64,
    pub ts: u64,
    /// Number of levels.
    pub total: usize,
}

/// Flags of level `i` of `total`.
pub open spec fn level_flags(base: u8, i: int, total: int) -> u8 {
    if i + 1 == total {
        base | F_LAST
    } else {
        base
    }
}

/// A zero size deletes a level, another size sets it.
pub open spec fn level_action(size: Seq<char>) -> BookAction {
    match decimal::parsed_decimal(text::trimmed(size)) {
        Some((m, s)) => if m == 0 {
            BookAction::Delete
        } else {
            BookAction::Update
        },
        None => BookAction::Delete,
    }
}

/// The delta of level `i` of a message.
pub open spec fn level_delta(
    context: DeltaContext,
    side: OrderSide,
    level: BookLevel,
    i: int,
) -> Result<BookDelta, ParseErrorView> {
    match (price_read(level.price@), size_read(level.size@)) {
        (Err(e), _) => Err(e),
        (Ok(_), Err(e)) => Err(e),
        (Ok(price), Ok(size)) => if level_action(level.size@) == BookAction::Update && size.raw
            == 0 {
            Err(ParseErrorView::SizeNotPositive)
        } else {
            Ok(
                BookDelta {
                    instrument_id: context.instrument_id,
                    action: level_action(level.size@),
                    side,
                    price,
                    size,
                    order_id: 0,
                    flags: level_flags(context.base_flags, i, context.total as int),
                    sequence: context.sequence,
                    ts_event: context.ts,
                    ts_init: context.ts,
                },
            )
        },
    }
}

/// `deltas` followed by the deltas of the first `n` levels, or the first refusal.
pub open spec fn with_levels(
    deltas: Seq<BookDelta>,
    context: DeltaContext,
    side: OrderSide,
    levels: Seq<BookLevel>,
    from: int,
    n: nat,
) -> Result<Seq<BookDelta>, ParseErrorView>
    decreases n,
{
    if n == 0 {
        Ok(deltas)
    } else {
        match with_levels(deltas, context, side, levels, from, (n - 1) as nat) {
            Ok(before) => match level_delta(context, side, levels[n - 1], from + n - 1) {
                Ok(delta) => Ok(before.push(delta)),
                Err(e) => Err(e),
            },
            Err(e) => Err(e),
        }
    }
}

/// `first` followed by the deltas of bids and asks, or the first refusal.
pub open spec fn book_deltas(
    first: Seq<BookDelta>,
    context: DeltaContext,
    bids: Seq<BookLevel>,
    asks: Seq<BookLevel>,
) -> Result<Seq<BookDelta>, ParseErrorView> {
    match with_levels(first, context, OrderSide::Buy, bids, 0, bids.len()) {
        Ok(before) => with_levels(
            before,
            context,
            OrderSide::Sell,
            asks,
            bids.len() as int,
            asks.len(),
        ),
        Err(e) => Err(e),
    }
}

/// The delta that empties a book.
pub open spec fn clear_delta(context: DeltaContext) -> BookDelta {
    BookDelta {
        instrument_id: context.instrument_id,
        action: BookAction::Clear,
        side: OrderSide::NoOrderSide,
        price: Price { raw: 0, precision: 0 },
        size: Quantity { raw: 0, precision: 0 },
        order_id: 0,
        flags: F_SNAPSHOT,
        sequence: context.sequence,
        ts_event: context.ts,
        ts_init: context.ts,
    }
}

/// `r` holds the deltas `deltas`, or the same refusal.
pub open spec fn is_deltas(
    r: Result<OrderBookDeltas, ParseError>,
    id: InstrumentId,
    deltas: Result<Seq<BookDelta>, ParseErrorView>,
) -> bool {
    match deltas {
        Ok(deltas) => {
            &&& r is Ok
            &&& r->Ok_0.instrument_id == id
            &&& r->Ok_0.deltas@ == deltas
            &&& deltas.len() > 0
            &&& r->Ok_0.flags == deltas.last().flags
            &&& r->Ok_0.sequence == deltas.last().sequence
            &&& r->Ok_0.ts_event == deltas.last().ts_event
            &&& r->Ok_0.ts_init == deltas.last().ts_init
        },
        Err(e) => viewed(r) == Err::<OrderBookDeltas, ParseErrorView>(e),
    }
}

fn level_to_delta(context: &DeltaContext, side: OrderSide, level: &BookLevel, flags: u8) -> (r:
    Result<BookDelta, ParseError>)
    ensures
        forall|i: int|
            flags == #[trigger] level_flags(context.base_flags, i, context.total as int)
                ==> viewed(r) == level_delta(*context, side, *level, i),
{
    let body: String = text::trim(level.size.as_str());
    let deletes: bool = match Decimal::parse(body.as_str()) {
        Ok(size) => size.is_zero(),
        Err(_) => true,
    };
    let action: BookAction = if deletes {
        BookAction::Delete
    } else {
        BookAction::Update
    };
    let price: Price = match parse_price(level.price.as_str()) {
        Ok(price) => price,
        Err(e) => {
            return Err(e);
        },
    };
    let size: Quantity = match parse_quantity(level.size.as_str()) {
        Ok(size) => size,
        Err(e) => {
            return Err(e);
        },
    };
    if !deletes && !size.is_positive() {
        return Err(ParseError::SizeNotPositive);
    }
    Ok(
        BookDelta {
            instrument_id: context.instrument_id.clone(),
            action,
            side,
            price,
            size,
            order_id: 0,
            flags,
            sequence: context.sequence,
            ts_event: context.ts,
            ts_init: context.ts,
        },
    )
}

/// A refusal stands whatever follows.
proof fn lemma_refused(
    deltas: Seq<BookDelta>,
    context: DeltaContext,
    side: OrderSide,
    levels: Seq<BookLevel>,
    from: int,
    n: nat,
    m: nat,
)
    requires
        n <= m,
        with_levels(deltas, context, side, levels, from, n) is Err,
    ensures
        with_levels(deltas, context, side, levels, from, m) == with_levels(
            deltas,
            context,
            side,
            levels,
            from,
            n,
        ),
    decreases m,
{
    if n < m {
        lemma_refused(deltas, context, side, levels, from, n, (m - 1) as nat);
    }
}

/// Appends the deltas of one side.
fn push_levels(
    deltas: &mut Vec<BookDelta>,
    context: &DeltaContext,
    side: OrderSide,
    levels: &[BookLevel],
    from: usize,
) -> (r: Option<ParseError>)
    requires
        from + levels@.len() <= context.total,
    ensures
        match with_levels(
            old(deltas)@,
            *context,
            side,
            levels@,
            from as int,
            levels@.len(),
        ) {
            Ok(after) => r is None && final(deltas)@ == after,
            Err(e) => r matches Some(refusal) && refusal@ == e,
        },
{
    let mut i: usize = 0;
    while i < levels.len()
        invariant
            i <= levels@.len(),
            from + levels@.len() <= context.total,
            with_levels(old(deltas)@, *context, side, levels@, from as int, i as nat) == Ok::<
                Seq<BookDelta>,
                ParseErrorView,
            >(deltas@),
        decreases levels@.len() - i,
    {
        let mut flags: u8 = context.base_flags;
        if from + i + 1 == context.total {
            flags = flags | F_LAST;
        }
        assert(flags == level_flags(context.base_flags, from + i, context.total as int));
        match level_to_delta(context, side, &levels[i], flags) {
            Ok(delta) => {
                deltas.push(delta);
            },
            Err(e) => {
                proof {
                    lemma_refused(
                        old(deltas)@,
                        *context,
                        side,
                        levels@,
                        from as int,
                        (i + 1) as nat,
                        levels@.len(),
                    );
                }
                return Some(e);
            },
        }
        i += 1;
    }
    None
}

/// Levels are appended one delta each, flagged by their position.
proof fn lemma_with_levels(
    deltas: Seq<BookDelta>,
    context: DeltaContext,
    side: OrderSide,
    levels: Seq<BookLevel>,
    from: int,
    n: nat,
)
    ensures
        with_levels(deltas, context, side, levels, from, n) matches Ok(after) ==> {
            &&& after.len() == deltas.len() + n
            &&& after.take(deltas.len() as int) == deltas
            &&& forall|i: int|
                deltas.len() <= i < after.len() ==> (#[trigger] after[i]).flags == level_flags(
                    context.base_flags,
                    from + i - deltas.len(),
                    context.total as int,
                )
            &&& forall|i: int|
                deltas.len() <= i < after.len() ==> (#[trigger] after[i]).action
                    != BookAction::Clear
        },
    decreases n,
{
    if n == 0 {
        assert(deltas.take(deltas.len() as int) =~= deltas);
    } else {
        lemma_with_levels(deltas, context, side, levels, from, (n - 1) as nat);
        if let Ok(after) = with_levels(deltas, context, side, levels, from, n) {
            let before = with_levels(deltas, context, side, levels, from, (n - 1) as nat)->Ok_0;
            assert(after.take(deltas.len() as int) =~= before.take(deltas.len() as int));
        }
    }
}

/// The end of a message is flagged on its last delta, and on no other.
pub open spec fn closes_once(deltas: Seq<BookDelta>) -> bool {
    &&& deltas.last().flags & F_LAST == F_LAST
    &&& forall|i: int| 0 <= i < deltas.len() - 1 ==> (#[trigger] deltas[i]).flags & F_LAST == 0
}

/// A message with a level closes once, and starts with what it was given.
proof fn lemma_book_deltas(
    first: Seq<BookDelta>,
    context: DeltaContext,
    bids: Seq<BookLevel>,
    asks: Seq<BookLevel>,
)
    requires
        context.total == bids.len() + asks.len(),
        context.base_flags == 0 || context.base_flags == F_SNAPSHOT,
        forall|i: int| 0 <= i < first.len() ==> (#[trigger] first[i]).flags == F_SNAPSHOT,
    ensures
        book_deltas(first, context, bids, asks) matches Ok(after) ==> {
            &&& after.len() == first.len() + context.total
            &&& after.take(first.len() as int) == first
            &&& context.total > 0 ==> closes_once(after)
            &&& context.total > 0 ==> after.last().flags == context.base_flags + 128
            &&& forall|i: int|
                first.len() <= i < after.len() - 1 ==> (#[trigger] after[i]).flags
                    == context.base_flags
            &&& forall|i: int|
                first.len() <= i < after.len() ==> (#[trigger] after[i]).action
                    != BookAction::Clear
        },
{
    lemma_with_levels(first, context, OrderSide::Buy, bids, 0, bids.len());
    if let Ok(after) = book_deltas(first, context, bids, asks) {
        let before = with_levels(first, context, OrderSide::Buy, bids, 0, bids.len())->Ok_0;
        lemma_with_levels(
            before,
            context,
            OrderSide::Sell,
            asks,
            bids.len() as int,
            asks.len(),
        );
        assert forall|i: int| 0 <= i < before.len() implies after[i] == before[i] by {
            assert(after.take(before.len() as int)[i] == after[i]);
        }
        assert forall|i: int| 0 <= i < first.len() implies before[i] == first[i] by {
            assert(before.take(first.len() as int)[i] == before[i]);
        }
        assert(after.take(first.len() as int) =~= first);
        assert(32u8 & 128u8 == 0 && (32u8 | 128u8) & 128u8 == 128 && (0u8 | 128u8) & 128u8 == 128
            && 0u8 & 128u8 == 0 && 32u8 | 128u8 == 160 && 0u8 | 128u8 == 128) by (bit_vector);
        if context.total > 0 {
            let n = after.len() - 1;
            assert(after[n].flags == level_flags(
                context.base_flags,
                context.total - 1,
                context.total as int,
            ));
        }
    }
}

fn deltas_of(id: &InstrumentId, deltas: Vec<BookDelta>) -> (r: OrderBookDeltas)
    requires
        deltas@.len() > 0,
    ensures
        is_deltas(Ok(r), *id, Ok(deltas@)),
{
    let last: usize = deltas.len() - 1;
    let flags: u8 = deltas[last].flags;
    let sequence: u64 = deltas[last].sequence;
    let ts_event: u64 = deltas[last].ts_event;
    let ts_init: u64 = deltas[last].ts_init;
    OrderBookDeltas { instrument_id: id.clone(), deltas, flags, sequence, ts_event, ts_init }
}

/// What the deltas of a snapshot share.
pub open spec fn snapshot_context(
    snapshot: BookSnapshot,
    instrument_id: InstrumentId,
    ts: u64,
) -> DeltaContext {
    DeltaContext {
        instrument_id,
        base_flags: F_SNAPSHOT,
        sequence: snapshot.sequence,
        ts,
        total: (snapshot.bids@.len() + snapshot.asks@.len()) as usize,
    }
}

/// The deltas of a snapshot: one that empties the book, then one for each level.
///
/// Only the last level is flagged as the end of the message.
pub fn parse_book_snapshot(snapshot: &BookSnapshot, instrument_id: &InstrumentId, ts_init: u64) -> (r:
    Result<OrderBookDeltas, ParseError>)
    requires
        snapshot.bids@.len() + snapshot.asks@.len() <= usize::MAX,
    ensures
        is_deltas(
            r,
            *instrument_id,
            book_deltas(
                seq![clear_delta(snapshot_context(*snapshot, *instrument_id, ts_init))],
                snapshot_context(*snapshot, *instrument_id, ts_init),
                snapshot.bids@,
                snapshot.asks@,
            ),
        ),
        r matches Ok(d) ==> {
            &&& d.deltas@.len() == 1 + snapshot.bids@.len() + snapshot.asks@.len()
            &&& d.deltas@[0].action == BookAction::Clear
            &&& forall|i: int|
                0 < i < d.deltas@.len() ==> (#[trigger] d.deltas@[i]).action != BookAction::Clear
            &&& d.deltas@.len() > 1 ==> closes_once(d.deltas@)
            &&& d.deltas@.len() > 1 ==> d.deltas@.last().flags == 160
            &&& forall|i: int|
                0 <= i < d.deltas@.len() - 1 ==> (#[trigger] d.deltas@[i]).flags == 32
            &&& d.instrument_id == *instrument_id
            &&& d.sequence == snapshot.sequence
            &&& d.ts_event == ts_init && d.ts_init == ts_init
            &&& forall|i: int|
                0 <= i < snapshot.bids@.len() ==> {
                    &&& (#[trigger] d.deltas@[1 + i]).side == OrderSide::Buy
                    &&& price_read(snapshot.bids@[i].price@) == Ok::<Price, ParseErrorView>(d.deltas@[1 + i].price)
                    &&& size_read(snapshot.bids@[i].size@) == Ok::<Quantity, ParseErrorView>(d.deltas@[1 + i].size)
                    &&& d.deltas@[1 + i].size.raw == 0 ==> d.deltas@[1 + i].action == BookAction::Delete
                    &&& d.deltas@[1 + i].size.raw > 0 ==> d.deltas@[1 + i].action == BookAction::Update
                }
            &&& forall|i: int|
                0 <= i < snapshot.asks@.len() ==> {
                    &&& (#[trigger] d.deltas@[1 + snapshot.bids@.len() + i]).side == OrderSide::Sell
                    &&& price_read(snapshot.asks@[i].price@) == Ok::<Price, ParseErrorView>(d.deltas@[1 + snapshot.bids@.len() + i].price)
                    &&& size_read(snapshot.asks@[i].size@) == Ok::<Quantity, ParseErrorView>(d.deltas@[1 + snapshot.bids@.len() + i].size)
                    &&& d.deltas@[1 + snapshot.bids@.len() + i].size.raw == 0 ==> d.deltas@[1 + snapshot.bids@.len() + i].action == BookAction::Delete
                    &&& d.deltas@[1 + snapshot.bids@.len() + i].size.raw > 0 ==> d.deltas@[1 + snapshot.bids@.len() + i].action == BookAction::Update
                }
        },
        levels_readable(snapshot.bids@) && levels_readable(snapshot.asks@) ==> r is Ok,
{
    let total: usize = snapshot.bids.len() + snapshot.asks.len();
    let context: DeltaContext = DeltaContext {
        instrument_id: instrument_id.clone(),
        base_flags: F_SNAPSHOT,
        sequence: snapshot.sequence,
        ts: ts_init,
        total,
    };
    let mut deltas: Vec<BookDelta> = Vec::new();
    deltas.push(
        BookDelta {
            instrument_id: instrument_id.clone(),
            action: BookAction::Clear,
            side: OrderSide::NoOrderSide,
            price: Price { raw: 0, precision: 0 },
            size: Quantity { raw: 0, precision: 0 },
            order_id: 0,
            flags: F_SNAPSHOT,
            sequence: snapshot.sequence,
            ts_event: ts_init,
            ts_init,
        },
    );
    proof {
        assert(deltas@ =~= seq![clear_delta(context)]);
        lemma_book_deltas(deltas@, context, snapshot.bids@, snapshot.asks@);
        law_deltas_follow_levels(deltas@, context, snapshot.bids@, snapshot.asks@);
        law_readable_levels_are_taken(deltas@, context, snapshot.bids@, snapshot.asks@);
    }
    if let Some(e) = push_levels(&mut deltas, &context, OrderSide::Buy, snapshot.bids.as_slice(), 0) {
        return Err(e);
    }
    if let Some(e) = push_levels(
        &mut deltas,
        &context,
        OrderSide::Sell,
        snapshot.asks.as_slice(),
        snapshot.bids.len(),
    ) {
        return Err(e);
    }
    assert(deltas@.take(1)[0] == deltas@[0]);
    Ok(deltas_of(instrument_id, deltas))
}

/// What the deltas of an update share.
pub open spec fn update_context(
    bids: Seq<BookLevel>,
    asks: Seq<BookLevel>,
    instrument_id: InstrumentId,
    sequence: u64,
    ts: u64,
) -> DeltaContext {
    DeltaContext {
        instrument_id,
        base_flags: 0,
        sequence,
        ts,
        total: (bids.len() + asks.len()) as usize,
    }
}

/// The deltas of an update: one for each level. An update without a level is refused.
///
/// Only the last level is flagged as the end of the message.
pub fn parse_book_delta(
    bids: &[BookLevel],
    asks: &[BookLevel],
    instrument_id: &InstrumentId,
    sequence: u64,
    ts_init: u64,
) -> (r: Result<OrderBookDeltas, ParseError>)
    requires
        bids@.len() + asks@.len() <= usize::MAX,
    ensures
        is_deltas(
            r,
            *instrument_id,
            if bids@.len() + asks@.len() == 0 {
                Err(ParseErrorView::EmptyDelta)
            } else {
                book_deltas(
                    Seq::empty(),
                    update_context(bids@, asks@, *instrument_id, sequence, ts_init),
                    bids@,
                    asks@,
                )
            },
        ),
        r matches Ok(d) ==> {
            &&& d.deltas@.len() == bids@.len() + asks@.len()
            &&& closes_once(d.deltas@)
            &&& d.deltas@.last().flags == 128
            &&& forall|i: int|
                0 <= i < d.deltas@.len() - 1 ==> (#[trigger] d.deltas@[i]).flags == 0
            &&& d.instrument_id == *instrument_id
            &&& d.sequence == sequence
            &&& d.ts_event == ts_init && d.ts_init == ts_init
            &&& forall|i: int|
                0 <= i < bids@.len() ==> {
                    &&& (#[trigger] d.deltas@[i]).side == OrderSide::Buy
                    &&& price_read(bids@[i].price@) == Ok::<Price, ParseErrorView>(d.deltas@[i].price)
                    &&& size_read(bids@[i].size@) == Ok::<Quantity, ParseErrorView>(d.deltas@[i].size)
                    &&& d.deltas@[i].size.raw == 0 ==> d.deltas@[i].action == BookAction::Delete
                    &&& d.deltas@[i].size.raw > 0 ==> d.deltas@[i].action == BookAction::Update
                }
            &&& forall|i: int|
                0 <= i < asks@.len() ==> {
                    &&& (#[trigger] d.deltas@[bids@.len() + i]).side == OrderSide::Sell
                    &&& price_read(asks@[i].price@) == Ok::<Price, ParseErrorView>(d.deltas@[bids@.len() + i].price)
                    &&& size_read(asks@[i].size@) == Ok::<Quantity, ParseErrorView>(d.deltas@[bids@.len() + i].size)
                    &&& d.deltas@[bids@.len() + i].size.raw == 0 ==> d.deltas@[bids@.len() + i].action == BookAction::Delete
                    &&& d.deltas@[bids@.len() + i].size.raw > 0 ==> d.deltas@[bids@.len() + i].action == BookAction::Update
                }
        },
        bids@.len() + asks@.len() > 0 && levels_readable(bids@) && levels_readable(asks@) ==> r
            is Ok,
{
    let total: usize = bids.len() + asks.len();
    if total == 0 {
        return Err(ParseError::EmptyDelta);
    }
    let context: DeltaContext = DeltaContext {
        instrument_id: instrument_id.clone(),
        base_flags: 0,
        sequence,
        ts: ts_init,
        total,
    };
    let mut deltas: Vec<BookDelta> = Vec::new();
    proof {
        assert(deltas@ =~= Seq::<BookDelta>::empty());
        lemma_book_deltas(deltas@, context, bids@, asks@);
        law_deltas_follow_levels(deltas@, context, bids@, asks@);
        law_readable_levels_are_taken(deltas@, context, bids@, asks@);
    }
    if let Some(e) = push_levels(&mut deltas, &context, OrderSide::Buy, bids, 0) {
        return Err(e);
    }
    if let Some(e) = push_levels(&mut deltas, &context, OrderSide::Sell, asks, bids.len()) {
        return Err(e);
    }
    proof {
        assert forall|i: int| 0 <= i < bids@.len() implies is_level_set(
            #[trigger] deltas@[i],
            OrderSide::Buy,
            bids@[i],
        ) by {
            assert(is_level_set(deltas@[0 + i], OrderSide::Buy, bids@[i]));
        }
        assert forall|i: int| 0 <= i < asks@.len() implies is_level_set(
            #[trigger] deltas@[bids@.len() + i],
            OrderSide::Sell,
            asks@[i],
        ) by {
            assert(is_level_set(deltas@[0 + bids@.len() + i], OrderSide::Sell, asks@[i]));
        }
    }
    Ok(deltas_of(instrument_id, deltas))
}

/// The quote of a best bid and ask: none where a side is empty.
pub open spec fn quote_of(
    best_bid: Option<BookLevel>,
    best_ask: Option<BookLevel>,
    instrument_id: InstrumentId,
    ts: u64,
) -> Result<Option<QuoteTick>, ParseErrorView> {
    match (best_bid, best_ask) {
        (Some(bid), Some(ask)) => match (
            price_read(bid.price@),
            price_read(ask.price@),
            size_read(bid.size@),
            size_read(ask.size@),
        ) {
            (Ok(bid_price), Ok(ask_price), Ok(bid_size), Ok(ask_size)) => Ok(
                Some(
                    QuoteTick {
                        instrument_id,
                        bid_price,
                        ask_price,
                        bid_size,
                        ask_size,
                        ts_event: ts,
                        ts_init: ts,
                    },
                ),
            ),
            (Err(e), _, _, _) => Err(e),
            (_, Err(e), _, _) => Err(e),
            (_, _, Err(e), _) => Err(e),
            (_, _, _, Err(e)) => Err(e),
        },
        _ => Ok(None),
    }
}

/// The quote of a best bid and ask: none where a side is empty.
pub fn parse_quote_tick(
    best_bid: Option<&BookLevel>,
    best_ask: Option<&BookLevel>,
    instrument_id: &InstrumentId,
    ts_init: u64,
) -> (r: Result<Option<QuoteTick>, ParseError>)
    ensures
        viewed(r) == quote_of(params::owned(best_bid), params::owned(best_ask), *instrument_id, ts_init),
        r matches Ok(None) <==> best_bid is None || best_ask is None,
        r matches Ok(Some(q)) ==> {
            &&& q.instrument_id == *instrument_id
            &&& price_read(best_bid->Some_0.price@) == Ok::<Price, ParseErrorView>(q.bid_price)
            &&& price_read(best_ask->Some_0.price@) == Ok::<Price, ParseErrorView>(q.ask_price)
            &&& size_read(best_bid->Some_0.size@) == Ok::<Quantity, ParseErrorView>(q.bid_size)
            &&& size_read(best_ask->Some_0.size@) == Ok::<Quantity, ParseErrorView>(q.ask_size)
            &&& q.ts_event == ts_init && q.ts_init == ts_init
        },
{
    let (bid, ask): (&BookLevel, &BookLevel) = match (best_bid, best_ask) {
        (Some(bid), Some(ask)) => (bid, ask),
        _ => {
            return Ok(None);
        },
    };
    let bid_price: Price = match parse_price(bid.price.as_str()) {
        Ok(price) => price,
        Err(e) => {
            return Err(e);
        },
    };
    let ask_price: Price = match parse_price(ask.price.as_str()) {
        Ok(price) => price,
        Err(e) => {
            return Err(e);
        },
    };
    let bid_size: Quantity = match parse_quantity(bid.size.as_str()) {
        Ok(size) => size,
        Err(e) => {
            return Err(e);
        },
    };
    let ask_size: Quantity = match parse_quantity(ask.size.as_str()) {
        Ok(size) => size,
        Err(e) => {
            return Err(e);
        },
    };
    Ok(
        Some(
            QuoteTick {
                instrument_id: instrument_id.clone(),
                bid_price,
                ask_price,
                bid_size,
                ask_size,
                ts_event: ts_init,
                ts_init,
            },
        ),
    )
}

fn level_ref(level: &Option<BookLevel>) -> (r: Option<&BookLevel>)
    ensures
        params::owned(r) == *level,
{
    match level {
        Some(level) => Some(level),
        None => None,
    }
}

pub fn parse_quote_snapshot(snapshot: &QuoteSnapshot, instrument_id: &InstrumentId, ts_init: u64) -> (r:
    Result<Option<QuoteTick>, ParseError>)
    ensures
        viewed(r) == quote_of(snapshot.best_bid, snapshot.best_ask, *instrument_id, ts_init),
{
    parse_quote_tick(
        level_ref(&snapshot.best_bid),
        level_ref(&snapshot.best_ask),
        instrument_id,
        ts_init,
    )
}

pub fn parse_quote_delta(delta: &QuoteDelta, instrument_id: &InstrumentId, ts_init: u64) -> (r:
    Result<Option<QuoteTick>, ParseError>)
    ensures
        viewed(r) == quote_of(delta.best_bid, delta.best_ask, *instrument_id, ts_init),
{
    parse_quote_tick(
        level_ref(&delta.best_bid),
        level_ref(&delta.best_ask),
        instrument_id,
        ts_init,
    )
}

/// A number of at most ten digits is below ten billion.
proof fn lemma_short_number(digits: Seq<char>)
    requires
        digits.len() <= 18,
        text::all_digits(digits),
    ensures
        text::number_of(digits) < decimal::pow10(digits.len()),
    decreases digits.len(),
{
    if digits.len() > 0 {
        let rest = digits.drop_last();
        assert(text::all_digits(rest)) by {
            assert forall|i: int| 0 <= i < rest.len() implies text::is_digit(
                #[trigger] rest[i],
            ) by {
                assert(rest[i] == digits[i]);
            }
        }
        lemma_short_number(rest);
        assert(text::is_digit(digits[digits.len() - 1]));
    }
}

/// The raw price of a plain number of cents with at most four places.
proof fn lemma_plain_cents(value: Decimal, whole: Seq<char>, frac: Seq<char>)
    requires
        text::all_digits(whole),
        text::all_digits(frac),
        frac.len() <= 4,
        whole.len() + frac.len() <= 10,
        value.is_ratio(text::number_of(whole + frac) as int, decimal::pow10(frac.len() + 2)),
    ensures
        fixed::fixed_raw(value, 6) == text::number_of(whole + frac) * decimal::pow10(
            (7 - frac.len()) as nat,
        ),
        0 <= text::number_of(whole + frac) * decimal::pow10((7 - frac.len()) as nat)
            <= PRICE_RAW_MAX,
{
    let n = text::number_of(whole + frac) as int;
    let k = (4 - frac.len()) as nat;
    lemma_short_number(whole + frac);
    decimal::lemma_pow10_values();
    reveal_with_fuel(decimal::pow10, 12);
    decimal::lemma_pow10_adds(frac.len() + 2, k);
    decimal::lemma_pow10_adds(k, 3);
    decimal::lemma_pow10_monotonic(whole.len() + frac.len(), 10);
    decimal::lemma_pow10_monotonic((7 - frac.len()) as nat, 7);
    decimal::lemma_pow10_positive(k);
    decimal::lemma_pow10_positive(frac.len() + 2);
    let up = decimal::pow10(k);
    let unit = decimal::pow10(frac.len() + 2);
    let place = decimal::pow10(value.scale as nat);
    assert(unit * up == 1_000_000);
    assert(value.mantissa * 1_000_000 == (n * up) * place) by (nonlinear_arith)
        requires
            value.mantissa * unit == n * place,
            unit * up == 1_000_000,
    ;
    fixed::lemma_millionths(value, n * up);
    assert((n * up) * 1_000 == n * (up * 1_000)) by (nonlinear_arith);
    let more = decimal::pow10((7 - frac.len()) as nat);
    assert(0 <= n * more <= PRICE_RAW_MAX) by (nonlinear_arith)
        requires
            0 <= n < 10_000_000_000,
            0 < more <= 10_000_000,
    ;
}

/// The raw size of a plain number with at most six places.
proof fn lemma_plain_size(value: Decimal, whole: Seq<char>, frac: Seq<char>)
    requires
        text::all_digits(whole),
        text::all_digits(frac),
        frac.len() <= 6,
        whole.len() <= 10,
        (value.mantissa, value.scale) == decimal::plain_parts(whole, frac),
    ensures
        fixed::fixed_raw(value, 6) == text::number_of(whole + frac) * decimal::pow10(
            (9 - frac.len()) as nat,
        ),
        0 <= text::number_of(whole + frac) * decimal::pow10((9 - frac.len()) as nat)
            <= QUANTITY_RAW_MAX,
        value.mantissa >= 0,
{
    let n = text::number_of(whole + frac) as int;
    lemma_short_number(whole + frac);
    decimal::lemma_pow10_values();
    reveal_with_fuel(decimal::pow10, 20);
    decimal::lemma_pow10_monotonic(whole.len() + frac.len(), 10 + frac.len());
    decimal::lemma_pow10_adds(10 + frac.len(), (9 - frac.len()) as nat);
    decimal::lemma_pow10_positive((9 - frac.len()) as nat);
    let more = decimal::pow10((9 - frac.len()) as nat);
    let limit = decimal::pow10(10 + frac.len());
    assert(limit * more == 10_000_000_000_000_000_000);
    assert(0 <= n * more <= QUANTITY_RAW_MAX) by (nonlinear_arith)
        requires
            0 <= n < limit,
            more > 0,
            limit * more == 10_000_000_000_000_000_000,
    ;
}

/// The delta sets the level on a side: to the price and size that its texts read as, and it deletes
/// the level exactly where the size is zero.
spec fn is_level_set(delta: BookDelta, side: OrderSide, level: BookLevel) -> bool {
    &&& delta.side == side
    &&& price_read(level.price@) == Ok::<Price, ParseErrorView>(delta.price)
    &&& size_read(level.size@) == Ok::<Quantity, ParseErrorView>(delta.size)
    &&& delta.size.raw == 0 ==> delta.action == BookAction::Delete
    &&& delta.size.raw > 0 ==> delta.action == BookAction::Update
}

/// Price and size of every level can be read, and no size that is not zero rounds to zero.
pub open spec fn levels_readable(levels: Seq<BookLevel>) -> bool {
    forall|i: int|
        0 <= i < levels.len() ==> {
            let (m, s) = decimal::parsed_decimal(text::trimmed(levels[i].size@))->Some_0;
            &&& price_read((#[trigger] levels[i]).price@) is Ok
            &&& size_read(levels[i].size@) is Ok
            &&& m == 0 || size_read(levels[i].size@)->Ok_0.raw > 0
        }
}

/// A zero size is that of a zero text.
proof fn lemma_zero_size(size: Seq<char>)
    ensures
        size_read(size) matches Ok(q) ==> (level_action(size) == BookAction::Delete ==> q.raw == 0),
{
    if let Some((m, s)) = decimal::parsed_decimal(text::trimmed(size)) {
        if m == 0 {
            decimal::lemma_pow10_values();
            if s > 6 {
                let d = decimal::pow10((s - 6) as nat);
                decimal::lemma_pow10_positive((s - 6) as nat);
                assert(0int / d == 0 && 0int % d == 0) by (nonlinear_arith)
                    requires
                        d > 0,
                ;
            }
        }
    }
}

/// The deltas of one side follow its levels, one each and in their order.
proof fn lemma_deltas_follow(
    deltas: Seq<BookDelta>,
    context: DeltaContext,
    side: OrderSide,
    levels: Seq<BookLevel>,
    from: int,
    n: nat,
)
    requires
        n <= levels.len(),
    ensures
        with_levels(deltas, context, side, levels, from, n) matches Ok(after) ==> {
            &&& after.len() == deltas.len() + n
            &&& forall|i: int| 0 <= i < deltas.len() ==> #[trigger] after[i] == deltas[i]
            &&& forall|i: int|
                0 <= i < n ==> {
                    let delta = #[trigger] after[deltas.len() + i];
                    &&& is_level_set(delta, side, levels[i])
                    &&& delta.instrument_id == context.instrument_id
                    &&& delta.sequence == context.sequence
                    &&& delta.ts_event == context.ts
                    &&& delta.ts_init == context.ts
                }
        },
    decreases n,
{
    if n > 0 {
        lemma_deltas_follow(deltas, context, side, levels, from, (n - 1) as nat);
        lemma_zero_size(levels[n - 1].size@);
        if let Ok(after) = with_levels(deltas, context, side, levels, from, n) {
            let before = with_levels(deltas, context, side, levels, from, (n - 1) as nat)->Ok_0;
            assert forall|i: int| 0 <= i < n implies ({
                let delta = #[trigger] after[deltas.len() + i];
                &&& is_level_set(delta, side, levels[i])
                &&& delta.instrument_id == context.instrument_id
                &&& delta.sequence == context.sequence
                &&& delta.ts_event == context.ts
                &&& delta.ts_init == context.ts
            }) by {
                if i < n - 1 {
                    assert(after[deltas.len() + i] == before[deltas.len() + i]);
                }
            }
        }
    }
}

/// The deltas of a message are those of its levels: behind what it starts with comes a bid for each
/// bid and then an ask for each ask, in their order, each with the price and size of its level and
/// with instrument, sequence and time of the message.
pub proof fn law_deltas_follow_levels(
    first: Seq<BookDelta>,
    context: DeltaContext,
    bids: Seq<BookLevel>,
    asks: Seq<BookLevel>,
)
    ensures
        book_deltas(first, context, bids, asks) matches Ok(after) ==> {
            &&& after.len() == first.len() + bids.len() + asks.len()
            &&& forall|i: int| 0 <= i < first.len() ==> #[trigger] after[i] == first[i]
            &&& forall|i: int|
                0 <= i < bids.len() ==> {
                    &&& (#[trigger] after[first.len() + i]).side == OrderSide::Buy
                    &&& price_read(bids[i].price@) == Ok::<Price, ParseErrorView>(after[first.len() + i].price)
                    &&& size_read(bids[i].size@) == Ok::<Quantity, ParseErrorView>(after[first.len() + i].size)
                    &&& after[first.len() + i].size.raw == 0 ==> after[first.len() + i].action == BookAction::Delete
                    &&& after[first.len() + i].size.raw > 0 ==> after[first.len() + i].action == BookAction::Update
                }
            &&& forall|i: int|
                0 <= i < asks.len() ==> {
                    &&& (#[trigger] after[first.len() + bids.len() + i]).side == OrderSide::Sell
                    &&& price_read(asks[i].price@) == Ok::<Price, ParseErrorView>(after[first.len() + bids.len() + i].price)
                    &&& size_read(asks[i].size@) == Ok::<Quantity, ParseErrorView>(after[first.len() + bids.len() + i].size)
                    &&& after[first.len() + bids.len() + i].size.raw == 0 ==> after[first.len() + bids.len() + i].action == BookAction::Delete
                    &&& after[first.len() + bids.len() + i].size.raw > 0 ==> after[first.len() + bids.len() + i].action == BookAction::Update
                }
            &&& forall|i: int|
                first.len() <= i < after.len() ==> {
                    &&& (#[trigger] after[i]).instrument_id == context.instrument_id
                    &&& after[i].sequence == context.sequence
                    &&& after[i].ts_event == context.ts
                    &&& after[i].ts_init == context.ts
                }
        },
{
    lemma_deltas_follow(first, context, OrderSide::Buy, bids, 0, bids.len());
    if let Ok(after) = book_deltas(first, context, bids, asks) {
        let before = with_levels(first, context, OrderSide::Buy, bids, 0, bids.len())->Ok_0;
        lemma_deltas_follow(
            before,
            context,
            OrderSide::Sell,
            asks,
            bids.len() as int,
            asks.len(),
        );
        assert forall|i: int| 0 <= i < bids.len() implies is_level_set(
            #[trigger] after[first.len() + i],
            OrderSide::Buy,
            bids[i],
        ) by {
            assert(after[first.len() + i] == before[first.len() + i]);
        }
        assert forall|i: int| 0 <= i < asks.len() implies is_level_set(
            #[trigger] after[first.len() + bids.len() + i],
            OrderSide::Sell,
            asks[i],
        ) by {
            assert(is_level_set(after[before.len() + i], OrderSide::Sell, asks[i]));
        }
        assert forall|i: int| first.len() <= i < after.len() implies {
            &&& (#[trigger] after[i]).instrument_id == context.instrument_id
            &&& after[i].sequence == context.sequence
            &&& after[i].ts_event == context.ts
            &&& after[i].ts_init == context.ts
        } by {
            if i < before.len() {
                let k = i - first.len();
                assert(after[i] == before[first.len() + k]);
            } else {
                let k = i - before.len();
                assert(after[before.len() + k] == after[i]);
            }
        }
    }
}

/// Levels of one side that can be read are all taken.
proof fn lemma_readable_taken(
    deltas: Seq<BookDelta>,
    context: DeltaContext,
    side: OrderSide,
    levels: Seq<BookLevel>,
    from: int,
    n: nat,
)
    requires
        n <= levels.len(),
        levels_readable(levels),
    ensures
        with_levels(deltas, context, side, levels, from, n) is Ok,
    decreases n,
{
    if n > 0 {
        lemma_readable_taken(deltas, context, side, levels, from, (n - 1) as nat);
        assert(price_read(levels[n - 1].price@) is Ok);
    }
}

/// A message whose levels can all be read is not refused.
pub proof fn law_readable_levels_are_taken(
    first: Seq<BookDelta>,
    context: DeltaContext,
    bids: Seq<BookLevel>,
    asks: Seq<BookLevel>,
)
    ensures
        levels_readable(bids) && levels_readable(asks) ==> book_deltas(first, context, bids, asks)
            is Ok,
{
    if levels_readable(bids) && levels_readable(asks) {
        lemma_readable_taken(first, context, OrderSide::Buy, bids, 0, bids.len());
        let before = with_levels(first, context, OrderSide::Buy, bids, 0, bids.len())->Ok_0;
        lemma_readable_taken(
            before,
            context,
            OrderSide::Sell,
            asks,
            bids.len() as int,
            asks.len(),
        );
    }
}

/// A quote pairs the best bid with the best ask: exchanging the two levels exchanges the sides of
/// the quote.
pub proof fn law_quote_sides_are_not_mixed(
    bid: BookLevel,
    ask: BookLevel,
    instrument_id: InstrumentId,
    ts: u64,
)
    ensures
        quote_of(Some(bid), Some(ask), instrument_id, ts) matches Ok(Some(q)) ==> {
            &&& price_read(bid.price@) == Ok::<Price, ParseErrorView>(q.bid_price)
            &&& size_read(bid.size@) == Ok::<Quantity, ParseErrorView>(q.bid_size)
            &&& price_read(ask.price@) == Ok::<Price, ParseErrorView>(q.ask_price)
            &&& size_read(ask.size@) == Ok::<Quantity, ParseErrorView>(q.ask_size)
            &&& quote_of(Some(ask), Some(bid), instrument_id, ts) matches Ok(Some(other))
                && other.bid_price == q.ask_price && other.ask_price == q.bid_price
                && other.bid_size == q.ask_size && other.ask_size == q.bid_size
        },
        quote_of(Some(bid), None, instrument_id, ts) == Ok::<Option<QuoteTick>, ParseErrorView>(
            None,
        ),
        quote_of(None, Some(ask), instrument_id, ts) == Ok::<Option<QuoteTick>, ParseErrorView>(
            None,
        ),
{
}

/// A tick size makes an instrument exactly where it is positive and a price can hold it.
pub proof fn law_tick_sizes(tick_size_raw: u64)
    ensures
        tick_refusal(tick_size_raw) is None <==> 0 < tick_size_raw && tick_size_raw * 1_000
            <= PRICE_RAW_MAX,
        tick_refusal(tick_size_raw) is None <==> !tick_refused(tick_size_raw),
{
}

/// The parameter of an outcome's instrument at a position.
proof fn lemma_outcome_param(
    info: Params,
    market: Market,
    outcome: LightpoolOutcome,
    spot_market: Seq<char>,
    tick_size_raw: u64,
    i: int,
)
    requires
        info@ == outcome_info(market, outcome, spot_market, tick_size_raw),
        0 <= i < 8,
    ensures
        params::param(
            Some(info),
            outcome_info(market, outcome, spot_market, tick_size_raw)[i].0,
        ) matches Some(value) && value@ == outcome_info(
            market,
            outcome,
            spot_market,
            tick_size_raw,
        )[i].1,
{
    let names = seq![
        "tick_size_raw"@,
        "market_slug"@,
        "market_id"@,
        "outcome"@,
        "spot_market"@,
        "collateral_token"@,
        "outcome_token"@,
        "question"@,
    ];
    lemma_info_names();
    let all = outcome_info(market, outcome, spot_market, tick_size_raw);
    assert(info@.len() == info.entries@.len());
    assert(all.len() == 8);
    assert forall|k: int| 0 <= k < 8 implies info.entries@[k].0@ == #[trigger] names[k] by {
        assert(info@[k].0 == all[k].0);
    }
    assert forall|k: int| 0 <= k < i implies #[trigger] info.entries@[k].0@ != names[i] by {
        assert(names[k] != names[i]);
    }
    assert(info.entries@[i].0@ == names[i]);
    params::lemma_entry_index(info.entries@, names[i], i);
    assert(info@[i].1 == all[i].1);
}

/// An outcome's instrument is named by the slug of the market and the outcome, trades on the given
/// spot market, expires at the deadline of the market, and gives back what it was made of: tick
/// size, outcome, spot market, collateral token and the token of the outcome.
pub proof fn law_instruments_describe_their_outcome(
    b: BinaryOption,
    market: Market,
    outcome: LightpoolOutcome,
    spot_market: Seq<char>,
    tick_size_raw: u64,
    ts_init: u64,
)
    requires
        is_outcome_of(b, market, outcome, spot_market, tick_size_raw, ts_init),
        tick_refusal(tick_size_raw) is None,
    ensures
        b.instrument.id@.1 == "LIGHTPOOL"@,
        outcome == LightpoolOutcome::Yes ==> b.instrument.id@.0 == market.slug@ + "-YES"@
            && params::string_view(b.instrument.outcome) == Some("yes"@) && params::param_text(
            b.instrument.info,
            "outcome_token"@,
        ) == Some(market.yes_token@) && params::param_text(b.instrument.info, "outcome"@) == Some(
            "yes"@,
        ),
        outcome == LightpoolOutcome::No ==> b.instrument.id@.0 == market.slug@ + "-NO"@
            && params::string_view(b.instrument.outcome) == Some("no"@) && params::param_text(
            b.instrument.info,
            "outcome_token"@,
        ) == Some(market.no_token@) && params::param_text(b.instrument.info, "outcome"@) == Some(
            "no"@,
        ),
        b.instrument.raw_symbol@ == spot_market,
        amounts::tick_size_of(b.instrument.info) == tick_size_raw,
        b.price_increment.raw == tick_size_raw * 1_000,
        b.price_increment.precision == 6 && b.price_precision == 6 && b.size_precision == 6,
        b.size_increment.raw == 1_000,
        b.expiration_ns == market.resolution_deadline * 1_000_000_000,
        b.ts_init == ts_init && b.ts_event == ts_init,
        params::param_text(b.instrument.info, "collateral_token"@) == Some(
            market.collateral_token@,
        ),
        params::param_text(b.instrument.info, "spot_market"@) == Some(spot_market),
        params::param_text(b.instrument.info, "market_slug"@) == Some(market.slug@),
        b.max_price.raw == 1_000_000_000 && b.min_price.raw == 0,
{
    let info = b.instrument.info->Some_0;
    lemma_outcome_param(info, market, outcome, spot_market, tick_size_raw, 0);
    lemma_outcome_param(info, market, outcome, spot_market, tick_size_raw, 1);
    lemma_outcome_param(info, market, outcome, spot_market, tick_size_raw, 3);
    lemma_outcome_param(info, market, outcome, spot_market, tick_size_raw, 4);
    lemma_outcome_param(info, market, outcome, spot_market, tick_size_raw, 5);
    lemma_outcome_param(info, market, outcome, spot_market, tick_size_raw, 6);
}

/// The two outcomes of a market are different instruments.
pub proof fn law_outcomes_are_told_apart(slug: Seq<char>)
    ensures
        slug + LightpoolOutcome::Yes.suffix() != slug + LightpoolOutcome::No.suffix(),
        LightpoolOutcome::Yes.label() != LightpoolOutcome::No.label(),
{
    reveal_strlit("-YES");
    reveal_strlit("-NO");
    reveal_strlit("yes");
    reveal_strlit("no");
    assert("-YES"@.len() == 4 && "-NO"@.len() == 3);
    assert((slug + "-YES"@).len() != (slug + "-NO"@).len());
    assert("yes"@.len() != "no"@.len());
}

} // verus!
