//! Tokens whose balances an account has, and the balances themselves.

use nautilus_model::enums::CurrencyType;
use vstd::prelude::*;

use crate::collections::TextSet;
use crate::common::consts::{DEFAULT_COLLATERAL_TOKEN, LIGHTPOOL};
use crate::common::currency;
use crate::common::currency::Currency;
use crate::config;
use crate::config::Environment;
use crate::decimal;
use crate::decimal::Decimal;
use crate::fixed;
use crate::fixed::FIXED_PRECISION;
use crate::http::models::{BalanceEntry, BalanceTokenSpec, Market};
use crate::model::{Instrument, InstrumentKind};
use crate::params;
use crate::params::Params;
use crate::text;

verus! {

/// Largest magnitude of a raw amount of money.
pub const MONEY_RAW_MAX: i64 = 9_223_372_036_000_000_000;

/// Symbols and addresses of a list.
pub open spec fn spec_views(specs: Seq<BalanceTokenSpec>) -> Seq<(Seq<char>, Seq<char>)> {
    specs.map_values(|spec: BalanceTokenSpec| (spec.symbol@, spec.address@))
}

/// An address is in the list, up to case.
pub open spec fn is_listed(specs: Seq<(Seq<char>, Seq<char>)>, address: Seq<char>) -> bool {
    exists|i: int|
        0 <= i < specs.len() && text::lower(#[trigger] specs[i].1) == text::lower(address)
}

/// The list with a token added: blank addresses and those that are listed are left out.
pub open spec fn with_token(
    specs: Seq<(Seq<char>, Seq<char>)>,
    symbol: Seq<char>,
    address: Seq<char>,
) -> Seq<(Seq<char>, Seq<char>)> {
    let address = text::trimmed(address);
    if address.len() == 0 || is_listed(specs, address) {
        specs
    } else {
        specs.push((symbol, address))
    }
}

/// The list with the tokens of a market added.
pub open spec fn with_market(
    specs: Seq<(Seq<char>, Seq<char>)>,
    collateral: Seq<char>,
    market: Market,
) -> Seq<(Seq<char>, Seq<char>)> {
    with_token(
        with_token(
            with_token(specs, collateral, market.collateral_token@),
            "YES"@,
            market.yes_token@,
        ),
        "NO"@,
        market.no_token@,
    )
}

/// The list with the tokens of some markets added.
pub open spec fn with_markets(
    specs: Seq<(Seq<char>, Seq<char>)>,
    collateral: Seq<char>,
    markets: Seq<Market>,
) -> Seq<(Seq<char>, Seq<char>)>
    decreases markets.len(),
{
    if markets.len() == 0 {
        specs
    } else {
        with_market(with_markets(specs, collateral, markets.drop_last()), collateral, markets.last())
    }
}

/// The keys that were seen are the addresses of the list.
pub open spec fn keys_of(seen: Set<Seq<char>>, specs: Seq<(Seq<char>, Seq<char>)>) -> bool {
    forall|key: Seq<char>| #[trigger]
        seen.contains(key) <==> exists|i: int|
            0 <= i < specs.len() && text::lower(#[trigger] specs[i].1) == key
}

/// No address is blank, and no two are the same up to case.
pub open spec fn is_token_list(specs: Seq<(Seq<char>, Seq<char>)>) -> bool {
    &&& forall|i: int| 0 <= i < specs.len() ==> text::trimmed(#[trigger] specs[i].1).len() > 0
    &&& forall|i: int, j: int|
        0 <= i < j < specs.len() ==> text::lower(#[trigger] specs[i].1) != text::lower(
            #[trigger] specs[j].1,
        )
}

/// Adding a token keeps a list without blank or repeated addresses, and lists the token's address.
pub proof fn law_token_lists_stay_distinct(
    specs: Seq<(Seq<char>, Seq<char>)>,
    symbol: Seq<char>,
    address: Seq<char>,
)
    requires
        is_token_list(specs),
    ensures
        is_token_list(with_token(specs, symbol, address)),
        text::trimmed(address).len() > 0 ==> is_listed(
            with_token(specs, symbol, address),
            text::trimmed(address),
        ),
{
    let trimmed = text::trimmed(address);
    if trimmed.len() > 0 && !is_listed(specs, trimmed) {
        text::lemma_trim_twice(address);
        let next = specs.push((symbol, trimmed));
        assert(next[specs.len() as int].1 == trimmed);
        assert forall|i: int, j: int| 0 <= i < j < next.len() implies text::lower(
            #[trigger] next[i].1,
        ) != text::lower(#[trigger] next[j].1) by {
            assert(next[i] == specs[i]);
        }
    }
}

/// Adds a token, without white space around its address, unless that is blank or its lower case was
/// seen before.
///
/// What was seen stays the lower case of the listed addresses, and a list without blank or repeated
/// addresses stays one.
pub fn push_token_spec(
    specs: &mut Vec<BalanceTokenSpec>,
    seen: &mut TextSet,
    symbol: &str,
    address: &str,
)
    requires
        keys_of(old(seen)@, spec_views(old(specs)@)),
    ensures
        spec_views(final(specs)@) == with_token(spec_views(old(specs)@), symbol@, address@),
        keys_of(final(seen)@, spec_views(final(specs)@)),
        ({
            let trimmed = text::trimmed(address@);
            if trimmed.len() == 0 || old(seen)@.contains(text::lower(trimmed)) {
                final(specs)@ == old(specs)@ && final(seen)@ == old(seen)@
            } else {
                &&& spec_views(final(specs)@) == spec_views(old(specs)@).push((symbol@, trimmed))
                &&& final(seen)@ == old(seen)@.insert(text::lower(trimmed))
            }
        }),
        is_token_list(spec_views(old(specs)@)) ==> is_token_list(spec_views(final(specs)@)),
{
    proof {
        if is_token_list(spec_views(specs@)) {
            law_token_lists_stay_distinct(spec_views(specs@), symbol@, address@);
        }
    }
    let address: String = text::trim(address);
    if address.as_str().unicode_len() == 0 {
        return;
    }
    let key: String = text::to_ascii_lowercase(address.as_str());
    let ghost before = spec_views(specs@);
    let added: bool = seen.insert(key.as_str());
    if added {
        specs.push(BalanceTokenSpec { symbol: symbol.to_owned(), address });
        proof {
            let after = spec_views(specs@);
            assert(after =~= before.push((symbol@, address@)));
            assert forall|k: Seq<char>| #[trigger]
                seen@.contains(k) <==> exists|i: int|
                    0 <= i < after.len() && text::lower(#[trigger] after[i].1) == k by {
                if old(seen)@.contains(k) {
                    let i = choose|i: int|
                        0 <= i < before.len() && text::lower(#[trigger] before[i].1) == k;
                    assert(after[i] == before[i]);
                }
                if k == key@ {
                    assert(after[before.len() as int].1 == address@);
                }
                if exists|i: int| 0 <= i < after.len() && text::lower(#[trigger] after[i].1) == k {
                    let i = choose|i: int|
                        0 <= i < after.len() && text::lower(#[trigger] after[i].1) == k;
                    if i < before.len() {
                        assert(before[i] == after[i]);
                        assert(old(seen)@.contains(k));
                    }
                }
            }
        }
    } else {
        proof {
            assert(seen@ =~= old(seen)@);
        }
    }
}

fn push_market_token_specs(
    specs: &mut Vec<BalanceTokenSpec>,
    seen: &mut TextSet,
    collateral_symbol: &str,
    market: &Market,
)
    requires
        keys_of(old(seen)@, spec_views(old(specs)@)),
    ensures
        spec_views(final(specs)@) == with_market(
            spec_views(old(specs)@),
            collateral_symbol@,
            *market,
        ),
        keys_of(final(seen)@, spec_views(final(specs)@)),
{
    push_token_spec(specs, seen, collateral_symbol, market.collateral_token.as_str());
    push_token_spec(specs, seen, "YES", market.yes_token.as_str());
    push_token_spec(specs, seen, "NO", market.no_token.as_str());
}

/// The parameters of a binary option.
pub open spec fn option_info(instrument: Instrument) -> Option<Params> {
    if instrument.kind == InstrumentKind::BinaryOption {
        instrument.info
    } else {
        None
    }
}

/// `YES` or `NO`, where a text is one of them up to case.
pub open spec fn side_symbol(label: Seq<char>) -> Option<Seq<char>> {
    let upper = text::upper(label);
    if upper == "YES"@ || upper == "NO"@ {
        Some(upper)
    } else {
        None
    }
}

/// The symbol of an outcome's token: from its parameters, else from the ending of its symbol.
pub open spec fn outcome_symbol(instrument: Instrument) -> Seq<char> {
    let by_info = match params::param_text(option_info(instrument), "outcome"@) {
        Some(outcome) => side_symbol(outcome),
        None => None,
    };
    let symbol = instrument.id.symbol@;
    match by_info {
        Some(symbol) => symbol,
        None => match side_symbol(symbol.skip(text::behind_last(symbol, '-'))) {
            Some(symbol) => symbol,
            None => "OUTCOME"@,
        },
    }
}

/// The parameters of a binary option.
pub fn option_params(instrument: &Instrument) -> (r: Option<&Params>)
    ensures
        params::owned(r) == option_info(*instrument),
{
    match instrument.kind {
        InstrumentKind::BinaryOption => match &instrument.info {
            Some(info) => Some(info),
            None => None,
        },
        _ => None,
    }
}

fn side_of_label(label: &str) -> (r: Option<String>)
    ensures
        params::string_view(r) == side_symbol(label@),
{
    let upper: String = text::to_ascii_uppercase(label);
    if text::same(upper.as_str(), "YES") || text::same(upper.as_str(), "NO") {
        Some(upper)
    } else {
        None
    }
}

fn outcome_symbol_from_instrument(instrument: &Instrument) -> (r: String)
    ensures
        r@ == outcome_symbol(*instrument),
{
    if let Some(outcome) = params::text_param(option_params(instrument), "outcome") {
        if let Some(symbol) = side_of_label(outcome) {
            return symbol;
        }
    }
    let suffix: String = text::last_piece(instrument.id.symbol.as_str(), '-');
    if let Some(symbol) = side_of_label(suffix.as_str()) {
        return symbol;
    }
    "OUTCOME".to_owned()
}

/// The list with the tokens of an instrument added.
pub open spec fn with_instrument(
    specs: Seq<(Seq<char>, Seq<char>)>,
    collateral: Seq<char>,
    instrument: Instrument,
) -> Seq<(Seq<char>, Seq<char>)> {
    if instrument.id.venue@ != LIGHTPOOL@ {
        specs
    } else {
        let info = option_info(instrument);
        let first = match params::param_text(info, "collateral_token"@) {
            Some(token) => with_token(specs, collateral, token),
            None => specs,
        };
        match params::param_text(info, "outcome_token"@) {
            Some(token) => with_token(first, outcome_symbol(instrument), token),
            None => first,
        }
    }
}

/// The tokens of the LightPool instruments of a cache.
pub open spec fn cached_tokens(cache: Seq<Instrument>, collateral: Seq<char>) -> Seq<
    (Seq<char>, Seq<char>),
>
    decreases cache.len(),
{
    if cache.len() == 0 {
        Seq::empty()
    } else {
        with_instrument(cached_tokens(cache.drop_last(), collateral), collateral, cache.last())
    }
}

/// The tokens of the LightPool instruments of a cache, each once.
pub fn collect_balance_token_specs_from_cache(cache: &[Instrument], env: &Environment) -> (r: Vec<
    BalanceTokenSpec,
>)
    ensures
        spec_views(r@) == cached_tokens(cache@, currency::collateral_code(*env)),
        is_token_list(spec_views(r@)),
{
    let mut specs: Vec<BalanceTokenSpec> = Vec::new();
    let mut seen: TextSet = TextSet::new();
    let collateral_symbol: String = currency::collateral_currency_code(env);
    assert(spec_views(specs@) =~= Seq::<(Seq<char>, Seq<char>)>::empty());
    let mut i: usize = 0;
    while i < cache.len()
        invariant
            i <= cache@.len(),
            collateral_symbol@ == currency::collateral_code(*env),
            spec_views(specs@) == cached_tokens(cache@.take(i as int), collateral_symbol@),
            is_token_list(spec_views(specs@)),
            keys_of(seen@, spec_views(specs@)),
        decreases cache@.len() - i,
    {
        let instrument: &Instrument = &cache[i];
        proof {
            assert(cache@.take(i + 1).drop_last() =~= cache@.take(i as int));
        }
        if text::same(instrument.id.venue.as_str(), LIGHTPOOL) {
            if let Some(info) = option_params(instrument) {
                if let Some(collateral) = params::text_param(Some(info), "collateral_token") {
                    push_token_spec(
                        &mut specs,
                        &mut seen,
                        collateral_symbol.as_str(),
                        collateral,
                    );
                }
                if let Some(outcome_token) = params::text_param(Some(info), "outcome_token") {
                    let symbol: String = outcome_symbol_from_instrument(instrument);
                    push_token_spec(&mut specs, &mut seen, symbol.as_str(), outcome_token);
                }
            }
        }
        i += 1;
    }
    assert(cache@.take(i as int) =~= cache@);
    specs
}

/// The list, or the collateral token where it is empty.
pub open spec fn or_collateral(
    specs: Seq<(Seq<char>, Seq<char>)>,
    env: Environment,
) -> Seq<(Seq<char>, Seq<char>)> {
    if specs.len() > 0 {
        specs
    } else {
        seq![
            (
                currency::collateral_code(env),
                config::nonempty_or(
                    env.collateral_token,
                    DEFAULT_COLLATERAL_TOKEN@,
                ),
            ),
        ]
    }
}

/// The collateral token's address is never blank, and has no white space around it.
proof fn lemma_collateral_token(env: Environment)
    ensures
        ({
            let token = config::nonempty_or(
                env.collateral_token,
                DEFAULT_COLLATERAL_TOKEN@,
            );
            text::trimmed(token) == token && token.len() > 0
        }),
{
    reveal_strlit("0x0200000000000001");
    let default = DEFAULT_COLLATERAL_TOKEN@;
    assert(text::trim_start(default) == default);
    assert(text::trim_end(default) == default);
    if config::nonempty(env.collateral_token) is Some {
        text::lemma_trim_twice(env.collateral_token->Some_0@);
    }
}

fn apply_default_collateral_spec(specs: &mut Vec<BalanceTokenSpec>, env: &Environment)
    ensures
        spec_views(final(specs)@) == or_collateral(spec_views(old(specs)@), *env),
{
    if specs.len() > 0 {
        return;
    }
    let collateral_symbol: String = currency::collateral_currency_code(env);
    let address: String = config::resolve_collateral_token(env);
    let mut seen: TextSet = TextSet::new();
    proof {
        lemma_collateral_token(*env);
    }
    push_token_spec(specs, &mut seen, collateral_symbol.as_str(), address.as_str());
    assert(spec_views(specs@) =~= or_collateral(spec_views(old(specs)@), *env));
}

/// Whether the markets have to be fetched to know the tokens.
pub fn needs_markets(cache_specs: &Vec<BalanceTokenSpec>, market_slugs: &Vec<String>) -> (r: bool)
    ensures
        r == (cache_specs@.len() == 0 && market_slugs@.len() > 0),
{
    cache_specs.len() == 0 && market_slugs.len() > 0
}

/// The tokens whose balances are asked for: those of the cache; where it has none, those of the
/// markets; where these have none, the collateral token.
pub fn resolve_balance_token_specs(
    cache_specs: Vec<BalanceTokenSpec>,
    markets: &[Market],
    env: &Environment,
) -> (r: Vec<BalanceTokenSpec>)
    ensures
        spec_views(r@) == or_collateral(
            if cache_specs@.len() > 0 {
                spec_views(cache_specs@)
            } else {
                with_markets(Seq::empty(), currency::collateral_code(*env), markets@)
            },
            *env,
        ),
        r@.len() > 0,
{
    let mut specs: Vec<BalanceTokenSpec> = cache_specs;
    if specs.len() == 0 {
        let mut seen: TextSet = TextSet::new();
        let collateral_symbol: String = currency::collateral_currency_code(env);
        assert(spec_views(specs@) =~= Seq::<(Seq<char>, Seq<char>)>::empty());
        let mut i: usize = 0;
        while i < markets.len()
            invariant
                i <= markets@.len(),
                collateral_symbol@ == currency::collateral_code(*env),
                spec_views(specs@) == with_markets(
                    Seq::empty(),
                    collateral_symbol@,
                    markets@.take(i as int),
                ),
                keys_of(seen@, spec_views(specs@)),
            decreases markets@.len() - i,
        {
            proof {
                assert(markets@.take(i + 1).drop_last() =~= markets@.take(i as int));
            }
            push_market_token_specs(
                &mut specs,
                &mut seen,
                collateral_symbol.as_str(),
                &markets[i],
            );
            i += 1;
        }
        assert(markets@.take(i as int) =~= markets@);
    }
    apply_default_collateral_spec(&mut specs, env);
    assert(spec_views(specs@).len() == specs@.len());
    specs
}

/// The code of the currency of a balance: the collateral's for itself and for `USDT`.
pub open spec fn balance_code(symbol: Seq<char>, env: Environment) -> Seq<char> {
    let collateral = currency::collateral_code(env);
    if text::same_ignoring_case(symbol, collateral) || text::same_ignoring_case(symbol, "USDT"@) {
        collateral
    } else {
        symbol
    }
}

/// The currency of a balance. Its decimal places are those under which its code is registered.
pub fn currency_for_balance_symbol(symbol: &str, env: &Environment) -> (r: Currency)
    requires
        text::trimmed(symbol@).len() > 0,
    ensures
        r.code@ == balance_code(symbol@, *env),
        text::trimmed(r.code@).len() > 0,
{
    let collateral: String = currency::collateral_currency_code(env);
    proof {
        currency::lemma_collateral_code(*env);
    }
    if text::eq_ignore_ascii_case(symbol, collateral.as_str()) || text::eq_ignore_ascii_case(
        symbol,
        "USDT",
    ) {
        currency::collateral_currency(env)
    } else {
        currency::register_currency(symbol)
    }
}

/// A balance in raw units of `10^-9`.
#[derive(Debug)]
pub struct AccountBalance {
    pub currency: Currency,
    pub total: i64,
    pub locked: i64,
    pub free: i64,
}

impl AccountBalance {
    /// The total is what is locked and what is free; of a total that is not negative, neither
    /// part is negative.
    pub open spec fn balanced(self) -> bool {
        &&& self.total == self.locked + self.free
        &&& self.total >= 0 ==> self.locked >= 0 && self.free >= 0
    }
}

/// Locked part of a total: within the total, where that is not negative.
pub open spec fn locked_part(total: int, locked: int) -> int {
    if total < 0 {
        locked
    } else if locked < 0 {
        0
    } else if locked > total {
        total
    } else {
        locked
    }
}

pub open spec fn in_money_range(raw: int) -> bool {
    -MONEY_RAW_MAX <= raw <= MONEY_RAW_MAX
}

/// Total, locked and free amount, where total and locked amount are in range.
pub open spec fn balance_parts(total: Decimal, locked: Decimal, precision: u8) -> Option<
    (int, int, int),
> {
    let t = fixed::fixed_raw(total, precision as int);
    let l = fixed::fixed_raw(locked, precision as int);
    if precision <= FIXED_PRECISION && in_money_range(t) && in_money_range(l) {
        Some((t, locked_part(t, l), t - locked_part(t, l)))
    } else {
        None
    }
}

/// The free amount is in range.
pub open spec fn free_fits(parts: Option<(int, int, int)>) -> bool {
    parts matches Some(p) ==> in_money_range(p.2)
}

/// The three amounts as integers.
pub open spec fn raw_parts(r: Result<(i64, i64, i64), String>) -> Option<(int, int, int)> {
    match r {
        Ok((total, locked, free)) => Some((total as int, locked as int, free as int)),
        Err(_) => None,
    }
}

/// How `nautilus_model` says that a total and a locked amount are no balance.
pub uninterp spec fn balance_refusal(
    total_mantissa: i128,
    total_scale: u32,
    locked_mantissa: i128,
    locked_scale: u32,
    code: Seq<char>,
    precision: u8,
) -> Seq<char>;

/// `nautilus_model::types::AccountBalance::from_total_and_locked`.
///
/// Total and locked amount are rounded to the places of the currency, half to even, and refused
/// out of the range of money. The locked amount is cut to what lies between zero and the total,
/// where that is not negative, and the rest is free. A free amount out of range panics. How an error
/// reads depends on the arguments alone, and is only named.
#[verifier::external_body]
fn balance_outside(total: Decimal, locked: Decimal, code: &str, precision: u8) -> (r: Result<
    (i64, i64, i64),
    String,
>)
    requires
        total.valid(),
        locked.valid(),
        text::trimmed(code@).len() > 0,
        precision <= FIXED_PRECISION,
        free_fits(balance_parts(total, locked, precision)),
    ensures
        raw_parts(r) == balance_parts(total, locked, precision),
        r is Err ==> r->Err_0@ == balance_refusal(
            total.mantissa,
            total.scale,
            locked.mantissa,
            locked.scale,
            code@,
            precision,
        ),
{
    let currency =
        nautilus_model::types::Currency::new(code, precision, 0, code, CurrencyType::Crypto);
    let balance = nautilus_model::types::AccountBalance::from_total_and_locked(
        rust_decimal::Decimal::from_i128_with_scale(total.mantissa, total.scale),
        rust_decimal::Decimal::from_i128_with_scale(locked.mantissa, locked.scale),
        currency,
    ).map_err(|e| e.to_string())?;
    Ok((balance.total.raw, balance.locked.raw, balance.free.raw))
}

/// Why the balance of a symbol was refused.
#[derive(Debug)]
pub enum BalanceError {
    /// The total is no number.
    InvalidTotal { symbol: String, cause: String },
    /// The locked amount is no number.
    InvalidLocked { symbol: String, cause: String },
    /// An amount is out of range.
    OutOfRange { symbol: String, cause: String },
}

/// A refusal by its texts.
pub enum BalanceErrorView {
    InvalidTotal { symbol: Seq<char>, cause: Seq<char> },
    InvalidLocked { symbol: Seq<char>, cause: Seq<char> },
    OutOfRange { symbol: Seq<char>, cause: Seq<char> },
}

impl View for BalanceError {
    type V = BalanceErrorView;

    open spec fn view(&self) -> BalanceErrorView {
        match *self {
            BalanceError::InvalidTotal { symbol, cause } => BalanceErrorView::InvalidTotal {
                symbol: symbol@,
                cause: cause@,
            },
            BalanceError::InvalidLocked { symbol, cause } => BalanceErrorView::InvalidLocked {
                symbol: symbol@,
                cause: cause@,
            },
            BalanceError::OutOfRange { symbol, cause } => BalanceErrorView::OutOfRange {
                symbol: symbol@,
                cause: cause@,
            },
        }
    }
}

impl BalanceErrorView {
    pub open spec fn text(self) -> Seq<char> {
        match self {
            BalanceErrorView::InvalidTotal { symbol, cause } => "invalid balance total for "@
                + symbol + ": "@ + cause,
            BalanceErrorView::InvalidLocked { symbol, cause } => "invalid balance locked for "@
                + symbol + ": "@ + cause,
            BalanceErrorView::OutOfRange { symbol, cause } => "invalid balance for "@ + symbol
                + ": "@ + cause,
        }
    }
}

impl BalanceError {
    /// The refusal in words.
    pub fn message(&self) -> (r: String)
        ensures
            r@ == self@.text(),
    {
        let (start, symbol, cause): (&str, &String, &String) = match self {
            BalanceError::InvalidTotal { symbol, cause } => (
                "invalid balance total for ",
                symbol,
                cause,
            ),
            BalanceError::InvalidLocked { symbol, cause } => (
                "invalid balance locked for ",
                symbol,
                cause,
            ),
            BalanceError::OutOfRange { symbol, cause } => ("invalid balance for ", symbol, cause),
        };
        let mut r: String = text::append(start, symbol.as_str());
        r.append(": ");
        r.append(cause.as_str());
        r
    }
}

/// A balance, or why there is none, by its text.
pub open spec fn cause_view<T>(r: Option<Result<T, String>>) -> Option<Result<T, Seq<char>>> {
    match r {
        None => None,
        Some(Ok(value)) => Some(Ok(value)),
        Some(Err(cause)) => Some(Err(cause@)),
    }
}

/// What was read, or the refusal by its texts.
pub open spec fn read_view<T>(r: Option<Result<T, BalanceError>>) -> Option<
    Result<T, BalanceErrorView>,
> {
    match r {
        None => None,
        Some(Ok(value)) => Some(Ok(value)),
        Some(Err(e)) => Some(Err(e@)),
    }
}

/// Why a total and a locked amount are no balance in a currency. One with more places than amounts
/// can have is refused as it is for a price.
pub open spec fn balance_cause(total: Decimal, locked: Decimal, currency: Currency) -> Seq<char> {
    if currency.precision > FIXED_PRECISION {
        fixed::price_refusal(total.mantissa, total.scale, currency.precision)
    } else {
        balance_refusal(
            total.mantissa,
            total.scale,
            locked.mantissa,
            locked.scale,
            currency.code@,
            currency.precision,
        )
    }
}

/// The balance of a total and a locked amount, or why there is none.
pub fn balance_from_total_and_locked(total: Decimal, locked: Decimal, currency: Currency) -> (r: Result<
    AccountBalance,
    String,
>)
    requires
        total.valid(),
        locked.valid(),
        text::trimmed(currency.code@).len() > 0,
        free_fits(balance_parts(total, locked, currency.precision)),
    ensures
        match balance_parts(total, locked, currency.precision) {
            Some((t, l, f)) => r == Ok::<AccountBalance, String>(
                AccountBalance { currency, total: t as i64, locked: l as i64, free: f as i64 },
            ),
            None => r is Err && r->Err_0@ == balance_cause(total, locked, currency),
        },
        r matches Ok(b) ==> b.balanced(),
{
    if currency.precision > FIXED_PRECISION {
        if let Err(cause) = fixed::Price::from_decimal_dp(total, currency.precision) {
            return Err(cause);
        }
    }
    match balance_outside(total, locked, currency.code.as_str(), currency.precision) {
        Ok((total, locked, free)) => Ok(AccountBalance { currency, total, locked, free }),
        Err(cause) => Err(cause),
    }
}

/// Total and locked amount of an entry.
pub open spec fn entry_amounts(entry: BalanceEntry) -> Result<
    (Decimal, Decimal),
    BalanceErrorView,
> {
    let total = text::trimmed(entry.total@);
    let locked = text::trimmed(entry.locked@);
    match decimal::parsed_decimal(total) {
        None => Err(
            BalanceErrorView::InvalidTotal {
                symbol: entry.symbol@,
                cause: decimal::parse_refusal(total),
            },
        ),
        Some((tm, ts)) => match decimal::parsed_decimal(locked) {
            None => Err(
                BalanceErrorView::InvalidLocked {
                    symbol: entry.symbol@,
                    cause: decimal::parse_refusal(locked),
                },
            ),
            Some((lm, ls)) => Ok(
                (Decimal { mantissa: tm, scale: ts }, Decimal { mantissa: lm, scale: ls }),
            ),
        },
    }
}

/// The balance of a total and a locked amount, or why there is none. `None` where the free amount
/// is out of range.
pub open spec fn amounts_balance(total: Decimal, locked: Decimal, currency: Currency) -> Option<
    Result<AccountBalance, Seq<char>>,
> {
    match balance_parts(total, locked, currency.precision) {
        None => Some(Err(balance_cause(total, locked, currency))),
        Some((t, l, f)) => if in_money_range(f) {
            Some(
                Ok(
                    AccountBalance {
                        currency,
                        total: t as i64,
                        locked: l as i64,
                        free: f as i64,
                    },
                ),
            )
        } else {
            None
        },
    }
}

/// The balance of an entry in a currency. `None` where the free amount is out of range.
pub open spec fn entry_balance(entry: BalanceEntry, currency: Currency) -> Option<
    Result<AccountBalance, BalanceErrorView>,
> {
    match entry_amounts(entry) {
        Err(e) => Some(Err(e)),
        Ok((total, locked)) => match amounts_balance(total, locked, currency) {
            None => None,
            Some(Ok(balance)) => Some(Ok(balance)),
            Some(Err(cause)) => Some(
                Err(BalanceErrorView::OutOfRange { symbol: entry.symbol@, cause }),
            ),
        },
    }
}

/// The raw value of a decimal at `precision` places, where it is an amount of money.
fn money_raw(d: Decimal, precision: u8) -> (r: Option<i64>)
    requires
        d.valid(),
    ensures
        match r {
            Some(raw) => precision <= FIXED_PRECISION && in_money_range(
                fixed::fixed_raw(d, precision as int),
            ) && raw == fixed::fixed_raw(d, precision as int),
            None => precision > FIXED_PRECISION || !in_money_range(
                fixed::fixed_raw(d, precision as int),
            ),
        },
{
    match fixed::Price::from_decimal_dp(d, precision) {
        Ok(price) => Some(price.raw),
        Err(_) => None,
    }
}

/// The free amount is in range, or total or locked amount is not.
fn free_amount_fits(total: Decimal, locked: Decimal, precision: u8) -> (r: bool)
    requires
        total.valid(),
        locked.valid(),
    ensures
        r == free_fits(balance_parts(total, locked, precision)),
{
    match (money_raw(total, precision), money_raw(locked, precision)) {
        (Some(t), Some(l)) => {
            let part: i64 = if t < 0 {
                l
            } else if l < 0 {
                0
            } else if l > t {
                t
            } else {
                l
            };
            let free: i128 = t as i128 - part as i128;
            -(MONEY_RAW_MAX as i128) <= free && free <= MONEY_RAW_MAX as i128
        },
        _ => true,
    }
}

fn read_entry_amounts(entry: &BalanceEntry) -> (r: Result<(Decimal, Decimal), BalanceError>)
    ensures
        match r {
            Ok(amounts) => entry_amounts(*entry) == Ok::<(Decimal, Decimal), BalanceErrorView>(
                amounts,
            ),
            Err(e) => entry_amounts(*entry) == Err::<(Decimal, Decimal), BalanceErrorView>(e@),
        },
        r matches Ok(d) ==> d.0.valid() && d.1.valid(),
{
    let body: String = text::trim(entry.total.as_str());
    let total: Decimal = match Decimal::parse(body.as_str()) {
        Ok(total) => total,
        Err(cause) => {
            return Err(BalanceError::InvalidTotal { symbol: entry.symbol.clone(), cause });
        },
    };
    let body: String = text::trim(entry.locked.as_str());
    match Decimal::parse(body.as_str()) {
        Ok(locked) => Ok((total, locked)),
        Err(cause) => Err(BalanceError::InvalidLocked { symbol: entry.symbol.clone(), cause }),
    }
}

/// As [`balance_from_total_and_locked`], and `None` where the free amount is out of range.
pub fn checked_balance(total: Decimal, locked: Decimal, currency: Currency) -> (r: Option<
    Result<AccountBalance, String>,
>)
    requires
        total.valid(),
        locked.valid(),
        text::trimmed(currency.code@).len() > 0,
    ensures
        cause_view(r) == amounts_balance(total, locked, currency),
        r matches Some(Ok(b)) ==> b.balanced(),
{
    if !free_amount_fits(total, locked, currency.precision) {
        return None;
    }
    Some(balance_from_total_and_locked(total, locked, currency))
}

/// The balance of an entry with a total and a locked amount.
fn entry_balance_of(entry: &BalanceEntry, total: Decimal, locked: Decimal, currency: Currency) -> (r:
    Option<Result<AccountBalance, BalanceError>>)
    requires
        total.valid(),
        locked.valid(),
        entry_amounts(*entry) == Ok::<(Decimal, Decimal), BalanceErrorView>((total, locked)),
        text::trimmed(currency.code@).len() > 0,
    ensures
        read_view(r) == entry_balance(*entry, currency),
        r matches Some(Ok(b)) ==> b.balanced(),
{
    match checked_balance(total, locked, currency) {
        None => None,
        Some(Ok(balance)) => Some(Ok(balance)),
        Some(Err(cause)) => Some(
            Err(BalanceError::OutOfRange { symbol: entry.symbol.clone(), cause }),
        ),
    }
}

/// The balance of an entry in a currency. `None` where the free amount is out of range.
pub fn read_balance_entry(entry: &BalanceEntry, currency: Currency) -> (r: Option<
    Result<AccountBalance, BalanceError>,
>)
    requires
        text::trimmed(currency.code@).len() > 0,
    ensures
        read_view(r) == entry_balance(*entry, currency),
        r matches Some(Ok(b)) ==> b.balanced(),
{
    match read_entry_amounts(entry) {
        Ok((total, locked)) => entry_balance_of(entry, total, locked, currency),
        Err(e) => Some(Err(e)),
    }
}

/// What an entry of a list gives in its currency: the symbol is read once the amounts are, and a
/// blank one names no currency.
pub open spec fn listed_balance(entry: BalanceEntry, currency: Currency) -> Option<
    Result<AccountBalance, BalanceErrorView>,
> {
    if entry_amounts(entry) is Ok && text::trimmed(entry.symbol@).len() == 0 {
        None
    } else {
        entry_balance(entry, currency)
    }
}

/// The balances of some entries in their currencies, or the first refusal. `None` where a blank
/// symbol or a free amount out of range comes before it.
pub open spec fn entry_balances(entries: Seq<BalanceEntry>, currencies: Seq<Currency>) -> Option<
    Result<Seq<AccountBalance>, BalanceErrorView>,
>
    decreases entries.len(),
{
    if entries.len() == 0 {
        Some(Ok(Seq::empty()))
    } else {
        match entry_balances(entries.drop_last(), currencies) {
            Some(Ok(before)) => match listed_balance(
                entries.last(),
                currencies[entries.len() - 1],
            ) {
                Some(Ok(balance)) => Some(Ok(before.push(balance))),
                Some(Err(e)) => Some(Err(e)),
                None => None,
            },
            other => other,
        }
    }
}

/// What ends the list stands whatever follows.
proof fn lemma_balances_stop(entries: Seq<BalanceEntry>, currencies: Seq<Currency>, n: int)
    requires
        0 <= n <= entries.len(),
        !(entry_balances(entries.take(n), currencies) matches Some(Ok(_))),
    ensures
        entry_balances(entries, currencies) == entry_balances(entries.take(n), currencies),
    decreases entries.len(),
{
    if n < entries.len() {
        assert(entries.drop_last().take(n) =~= entries.take(n));
        lemma_balances_stop(entries.drop_last(), currencies, n);
    } else {
        assert(entries.take(n) =~= entries);
    }
}

/// Entries are read by the currencies of their own positions.
proof fn lemma_balances_local(entries: Seq<BalanceEntry>, a: Seq<Currency>, b: Seq<Currency>)
    requires
        forall|i: int| 0 <= i < entries.len() ==> #[trigger] a[i] == b[i],
    ensures
        entry_balances(entries, a) == entry_balances(entries, b),
    decreases entries.len(),
{
    if entries.len() > 0 {
        lemma_balances_local(entries.drop_last(), a, b);
        assert(a[entries.len() - 1] == b[entries.len() - 1]);
    }
}

/// Each currency has the code of its entry.
pub open spec fn codes_match(
    entries: Seq<BalanceEntry>,
    currencies: Seq<Currency>,
    env: Environment,
) -> bool {
    &&& currencies.len() == entries.len()
    &&& forall|i: int|
        0 <= i < entries.len() ==> (#[trigger] currencies[i]).code@ == balance_code(
            entries[i].symbol@,
            env,
        )
}

/// A zero balance in the collateral currency.
pub open spec fn is_placeholder(balances: Seq<AccountBalance>, env: Environment) -> bool {
    &&& balances.len() == 1
    &&& balances[0].currency.code@ == currency::collateral_code(env)
    &&& balances[0].total == 0
    &&& balances[0].locked == 0
    &&& balances[0].free == 0
}

/// `r` holds the balances that were read, or one of zero where there are none.
pub open spec fn is_balances(
    r: Option<Result<Vec<AccountBalance>, BalanceError>>,
    balances: Option<Result<Seq<AccountBalance>, BalanceErrorView>>,
    env: Environment,
) -> bool {
    match balances {
        None => r is None,
        Some(Err(e)) => r matches Some(Err(refusal)) && refusal@ == e,
        Some(Ok(list)) => r matches Some(Ok(v)) && if list.len() == 0 {
            is_placeholder(v@, env)
        } else {
            v@ == list
        },
    }
}

/// A zero balance in the collateral currency.
pub fn placeholder_balances(env: &Environment) -> (r: Vec<AccountBalance>)
    ensures
        is_placeholder(r@, *env),
{
    let currency: Currency = currency::collateral_currency(env);
    let mut balances: Vec<AccountBalance> = Vec::new();
    balances.push(AccountBalance { currency, total: 0, locked: 0, free: 0 });
    balances
}

/// The balances of some entries, a zero collateral balance where there are none.
///
/// The decimal places of a currency are those under which its code is registered, which no
/// contract can say: [`read_balance_entry`] says what each of them gives. A refused entry ends the
/// list, whatever its symbol and whatever follows. `None` where, with no entry refused before, an
/// entry with a total and a locked amount has a blank symbol or a free amount out of range.
pub fn parse_balance_entries(entries: &[BalanceEntry], env: &Environment) -> (r: Option<
    Result<Vec<AccountBalance>, BalanceError>,
>)
    ensures
        exists|currencies: Seq<Currency>| #[trigger]
            codes_match(entries@, currencies, *env) && is_balances(
                r,
                entry_balances(entries@, currencies),
                *env,
            ),
        r matches Some(Ok(v)) ==> forall|i: int|
            0 <= i < v@.len() ==> (#[trigger] v@[i]).balanced(),
{
    let mut balances: Vec<AccountBalance> = Vec::new();
    let collateral: String = currency::collateral_currency_code(env);
    let ghost mut currencies: Seq<Currency> = Seq::new(
        entries@.len(),
        |i: int|
            Currency {
                code: if balance_code(entries@[i].symbol@, *env) == collateral@ {
                    collateral
                } else {
                    entries@[i].symbol
                },
                precision: 0,
            },
    );
    let mut i: usize = 0;
    while i < entries.len()
        invariant
            i <= entries@.len(),
            codes_match(entries@, currencies, *env),
            entry_balances(entries@.take(i as int), currencies) == Some(
                Ok::<Seq<AccountBalance>, BalanceErrorView>(balances@),
            ),
            balances@.len() == i,
            forall|i: int| 0 <= i < balances@.len() ==> (#[trigger] balances@[i]).balanced(),
        decreases entries@.len() - i,
    {
        let entry: &BalanceEntry = &entries[i];
        proof {
            assert(entries@.take(i + 1).drop_last() =~= entries@.take(i as int));
        }
        let (total, locked): (Decimal, Decimal) = match read_entry_amounts(entry) {
            Ok(amounts) => amounts,
            Err(e) => {
                proof {
                    lemma_balances_stop(entries@, currencies, i + 1);
                }
                return Some(Err(e));
            },
        };
        let code: String = text::trim(entry.symbol.as_str());
        if code.as_str().unicode_len() == 0 {
            proof {
                lemma_balances_stop(entries@, currencies, i + 1);
            }
            return None;
        }
        let currency: Currency = currency_for_balance_symbol(entry.symbol.as_str(), env);
        proof {
            let next = currencies.update(i as int, currency);
            lemma_balances_local(entries@.take(i as int), currencies, next);
            currencies = next;
            assert(codes_match(entries@, currencies, *env));
        }
        match entry_balance_of(entry, total, locked, currency) {
            Some(Ok(balance)) => {
                balances.push(balance);
            },
            Some(Err(e)) => {
                proof {
                    lemma_balances_stop(entries@, currencies, i + 1);
                }
                return Some(Err(e));
            },
            None => {
                proof {
                    lemma_balances_stop(entries@, currencies, i + 1);
                }
                return None;
            },
        }
        i += 1;
    }
    assert(entries@.take(i as int) =~= entries@);
    if balances.len() == 0 {
        balances = placeholder_balances(env);
    }
    Some(Ok(balances))
}

/// A balance splits its total: what is locked and what is free add up to it. Of a total that is not
/// negative, what is said to be locked is locked, as far as the total goes and never less than
/// nothing.
pub proof fn law_balances_split_the_total(total: Decimal, locked: Decimal, precision: u8)
    ensures
        balance_parts(total, locked, precision) matches Some((t, l, f)) ==> {
            let said = fixed::fixed_raw(locked, precision as int);
            &&& t == fixed::fixed_raw(total, precision as int)
            &&& t == l + f
            &&& t >= 0 && 0 <= said <= t ==> l == said && f == t - said
            &&& t >= 0 && said > t ==> l == t && f == 0
            &&& t >= 0 && said < 0 ==> l == 0 && f == t
        },
{
}

/// The balance of an entry is read from its own texts: the total from the total, the locked amount
/// from the locked amount, in the given currency.
pub proof fn law_entries_are_read_from_their_texts(entry: BalanceEntry, currency: Currency)
    ensures
        entry_balance(entry, currency) matches Some(Ok(b)) ==> {
            let (tm, ts) = decimal::parsed_decimal(text::trimmed(entry.total@))->Some_0;
            let (lm, ls) = decimal::parsed_decimal(text::trimmed(entry.locked@))->Some_0;
            let total = fixed::fixed_raw(
                Decimal { mantissa: tm, scale: ts },
                currency.precision as int,
            );
            let locked = fixed::fixed_raw(
                Decimal { mantissa: lm, scale: ls },
                currency.precision as int,
            );
            &&& decimal::parsed_decimal(text::trimmed(entry.total@)) is Some
            &&& decimal::parsed_decimal(text::trimmed(entry.locked@)) is Some
            &&& b.currency == currency
            &&& b.total == total
            &&& 0 <= locked <= total ==> b.locked == locked
            &&& b.free == b.total - b.locked
        },
        decimal::parsed_decimal(text::trimmed(entry.total@)) is None ==> (entry_balance(
            entry,
            currency,
        ) matches Some(Err(BalanceErrorView::InvalidTotal { symbol, cause })) && symbol
            == entry.symbol@),
        decimal::parsed_decimal(text::trimmed(entry.total@)) is Some && decimal::parsed_decimal(
            text::trimmed(entry.locked@),
        ) is None ==> (entry_balance(entry, currency) matches Some(
            Err(BalanceErrorView::InvalidLocked { symbol, cause }),
        ) && symbol == entry.symbol@),
{
}

/// A list of entries gives one balance for each, in their order, that of the entry in its currency.
/// It is given where every entry has a balance and a symbol.
pub proof fn law_lists_give_each_balance(entries: Seq<BalanceEntry>, currencies: Seq<Currency>)
    ensures
        entry_balances(entries, currencies) matches Some(Ok(list)) ==> {
            &&& list.len() == entries.len()
            &&& forall|i: int|
                0 <= i < entries.len() ==> entry_balance(entries[i], currencies[i]) == Some(
                    Ok::<AccountBalance, BalanceErrorView>(#[trigger] list[i]),
                )
        },
        (forall|i: int|
            0 <= i < entries.len() ==> text::trimmed((#[trigger] entries[i]).symbol@).len() > 0 && (
            entry_balance(entries[i], currencies[i]) matches Some(Ok(_)))) ==> (entry_balances(
            entries,
            currencies,
        ) matches Some(Ok(_))),
    decreases entries.len(),
{
    if entries.len() > 0 {
        let head = entries.drop_last();
        let n = entries.len() - 1;
        law_lists_give_each_balance(head, currencies);
        assert(entries[n] == entries.last());
        if let Some(Ok(list)) = entry_balances(entries, currencies) {
            let before = entry_balances(head, currencies)->Some_0->Ok_0;
            assert forall|i: int| 0 <= i < entries.len() implies entry_balance(
                entries[i],
                currencies[i],
            ) == Some(Ok::<AccountBalance, BalanceErrorView>(#[trigger] list[i])) by {
                if i < n {
                    assert(head[i] == entries[i]);
                    assert(list[i] == before[i]);
                }
            }
        }
        if forall|i: int|
            0 <= i < entries.len() ==> text::trimmed((#[trigger] entries[i]).symbol@).len() > 0 && (
            entry_balance(entries[i], currencies[i]) matches Some(Ok(_))) {
            assert forall|i: int| 0 <= i < head.len() implies text::trimmed(
                (#[trigger] head[i]).symbol@,
            ).len() > 0 && (entry_balance(head[i], currencies[i]) matches Some(Ok(_))) by {
                assert(head[i] == entries[i]);
            }
            assert(text::trimmed(entries[n].symbol@).len() > 0);
        }
    }
}

/// The collateral symbol and `USDT`, in whatever case, are the collateral currency. Every other
/// symbol is a currency of its own.
pub proof fn law_balance_codes(symbol: Seq<char>, env: Environment)
    ensures
        text::lower(symbol) == text::lower("USDT"@) ==> balance_code(symbol, env)
            == currency::collateral_code(env),
        text::lower(symbol) == text::lower(currency::collateral_code(env)) ==> balance_code(
            symbol,
            env,
        ) == currency::collateral_code(env),
        text::lower(symbol) != text::lower("USDT"@) && text::lower(symbol) != text::lower(
            currency::collateral_code(env),
        ) ==> balance_code(symbol, env) == symbol,
{
}

/// Adding a token leaves the tokens that are listed, in their order, and appends at most the token
/// itself: its address without white space around it, where that is neither blank nor listed.
pub proof fn law_tokens_are_appended(
    specs: Seq<(Seq<char>, Seq<char>)>,
    symbol: Seq<char>,
    address: Seq<char>,
)
    ensures
        ({
            let after = with_token(specs, symbol, address);
            let known = exists|i: int|
                0 <= i < specs.len() && text::lower(#[trigger] specs[i].1) == text::lower(
                    text::trimmed(address),
                );
            &&& forall|i: int| 0 <= i < specs.len() ==> #[trigger] after[i] == specs[i]
            &&& text::trimmed(address).len() > 0 && !known ==> after.len() == specs.len() + 1
                && after.last().0 == symbol && after.last().1 == text::trimmed(address)
            &&& text::trimmed(address).len() == 0 || known ==> after.len() == specs.len()
        }),
{
}

/// The tokens of a market are its collateral, YES and NO tokens, each under its name.
pub proof fn law_market_tokens(collateral: Seq<char>, market: Market)
    requires
        text::trimmed(market.collateral_token@).len() > 0,
        text::trimmed(market.yes_token@).len() > 0,
        text::trimmed(market.no_token@).len() > 0,
        text::lower(text::trimmed(market.collateral_token@)) != text::lower(
            text::trimmed(market.yes_token@),
        ),
        text::lower(text::trimmed(market.collateral_token@)) != text::lower(
            text::trimmed(market.no_token@),
        ),
        text::lower(text::trimmed(market.yes_token@)) != text::lower(
            text::trimmed(market.no_token@),
        ),
    ensures
        ({
            let specs = with_markets(Seq::empty(), collateral, seq![market]);
            &&& specs.len() == 3
            &&& specs[0] == (collateral, text::trimmed(market.collateral_token@))
            &&& specs[1] == ("YES"@, text::trimmed(market.yes_token@))
            &&& specs[2] == ("NO"@, text::trimmed(market.no_token@))
        }),
{
    let none = Seq::<(Seq<char>, Seq<char>)>::empty();
    assert(seq![market].drop_last() =~= Seq::<Market>::empty());
    assert(seq![market].last() == market);
    reveal_with_fuel(with_markets, 2);
    let one = with_token(none, collateral, market.collateral_token@);
    assert(one =~= seq![(collateral, text::trimmed(market.collateral_token@))]);
    let two = with_token(one, "YES"@, market.yes_token@);
    assert(two =~= one.push(("YES"@, text::trimmed(market.yes_token@))));
    let three = with_token(two, "NO"@, market.no_token@);
    assert(three =~= two.push(("NO"@, text::trimmed(market.no_token@))));
    assert(with_markets(none, collateral, seq![market]) == three);
}

/// The tokens of a cached LightPool option are listed, and instruments of other venues add nothing.
pub proof fn law_cached_tokens(cache: Seq<Instrument>, later: Instrument, collateral: Seq<char>)
    ensures
        later.id.venue@ != "LIGHTPOOL"@ ==> cached_tokens(cache.push(later), collateral)
            == cached_tokens(cache, collateral),
        later.id.venue@ == "LIGHTPOOL"@ && later.kind == InstrumentKind::BinaryOption ==> {
            let specs = cached_tokens(cache.push(later), collateral);
            &&& (params::param_text(later.info, "collateral_token"@) matches Some(token)
                && text::trimmed(token).len() > 0) ==> is_listed(
                specs,
                text::trimmed(params::param_text(later.info, "collateral_token"@)->Some_0),
            )
            &&& (params::param_text(later.info, "outcome_token"@) matches Some(token)
                && text::trimmed(token).len() > 0) ==> is_listed(
                specs,
                text::trimmed(params::param_text(later.info, "outcome_token"@)->Some_0),
            )
        },
{
    assert(cache.push(later).drop_last() =~= cache);
    let before = cached_tokens(cache, collateral);
    if later.id.venue@ == LIGHTPOOL@ && later.kind == InstrumentKind::BinaryOption {
        let first = match params::param_text(later.info, "collateral_token"@) {
            Some(token) => with_token(before, collateral, token),
            None => before,
        };
        if let Some(token) = params::param_text(later.info, "collateral_token"@) {
            lemma_listed_after(before, collateral, token);
            if let Some(other) = params::param_text(later.info, "outcome_token"@) {
                if text::trimmed(token).len() > 0 {
                    lemma_stays_listed(first, outcome_symbol(later), other, text::trimmed(token));
                }
            }
        }
        if let Some(other) = params::param_text(later.info, "outcome_token"@) {
            lemma_listed_after(first, outcome_symbol(later), other);
        }
    }
}

proof fn lemma_listed_after(
    specs: Seq<(Seq<char>, Seq<char>)>,
    symbol: Seq<char>,
    address: Seq<char>,
)
    ensures
        text::trimmed(address).len() > 0 ==> is_listed(
            with_token(specs, symbol, address),
            text::trimmed(address),
        ),
{
    let trimmed = text::trimmed(address);
    if trimmed.len() > 0 && !is_listed(specs, trimmed) {
        let next = specs.push((symbol, trimmed));
        assert(next[specs.len() as int].1 == trimmed);
    }
}

proof fn lemma_stays_listed(
    specs: Seq<(Seq<char>, Seq<char>)>,
    symbol: Seq<char>,
    address: Seq<char>,
    listed: Seq<char>,
)
    requires
        is_listed(specs, listed),
    ensures
        is_listed(with_token(specs, symbol, address), listed),
{
    let i = choose|i: int|
        0 <= i < specs.len() && text::lower(#[trigger] specs[i].1) == text::lower(listed);
    let next = with_token(specs, symbol, address);
    assert(next[i] == specs[i]);
}

/// The outcome of an option is named by its parameter, in whatever case, or else by the end of its
/// symbol.
pub proof fn law_outcome_symbols(instrument: Instrument)
    ensures
        outcome_symbol(instrument) == "YES"@ || outcome_symbol(instrument) == "NO"@
            || outcome_symbol(instrument) == "OUTCOME"@,
        instrument.kind == InstrumentKind::BinaryOption ==> (params::param_text(
            instrument.info,
            "outcome"@,
        ) matches Some(label) ==> (text::upper(label) == "YES"@ ==> outcome_symbol(instrument)
            == "YES"@) && (text::upper(label) == "NO"@ ==> outcome_symbol(instrument) == "NO"@)),
{
}

/// There is always a token to ask for: what was collected, or else the collateral token.
pub proof fn law_some_token_is_asked_for(specs: Seq<(Seq<char>, Seq<char>)>, env: Environment)
    ensures
        or_collateral(specs, env).len() > 0,
        specs.len() > 0 ==> or_collateral(specs, env) == specs,
        specs.len() == 0 ==> or_collateral(specs, env).len() == 1 && or_collateral(specs, env)[0].0
            == currency::collateral_code(env),
{
}

} // verus!
