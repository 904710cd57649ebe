//! Rules of the smoke tools.

use vstd::prelude::*;

use crate::common::currency;
use crate::config::Environment;
use crate::decimal;
use crate::decimal::Decimal;
use crate::fixed;
use crate::fixed::Price;
use crate::http::models::{BalanceEntry, BalanceTokenSpec, BookLevel, Market};
use crate::model::{Instrument, InstrumentId, InstrumentKind};
use crate::params;
use crate::text;

verus! {

/// The instrument's symbol speaks of YES.
pub open spec fn is_yes(instrument: Instrument) -> bool {
    text::has_part(text::upper(instrument.id.symbol@), "YES"@)
}

pub fn instrument_is_yes(instrument: &Instrument) -> (r: bool)
    ensures
        r == is_yes(*instrument),
{
    let upper: String = text::to_ascii_uppercase(instrument.id.symbol.as_str());
    text::contains(upper.as_str(), "YES")
}

/// The instrument is a binary option, and of the YES outcome where that is asked for.
pub open spec fn is_choice(instrument: Instrument, yes_only: bool) -> bool {
    instrument.kind == InstrumentKind::BinaryOption && (yes_only ==> is_yes(instrument))
}

/// Position of the first choice, or the number of instruments.
pub open spec fn first_choice(instruments: Seq<Instrument>, yes_only: bool) -> int
    decreases instruments.len(),
{
    if instruments.len() == 0 || is_choice(instruments[0], yes_only) {
        0
    } else {
        1 + first_choice(instruments.skip(1), yes_only)
    }
}

proof fn lemma_first_choice(instruments: Seq<Instrument>, yes_only: bool, i: int)
    requires
        0 <= i <= instruments.len(),
        forall|k: int| 0 <= k < i ==> !is_choice(#[trigger] instruments[k], yes_only),
        i == instruments.len() || is_choice(instruments[i], yes_only),
    ensures
        first_choice(instruments, yes_only) == i,
    decreases i,
{
    if i > 0 {
        assert(!is_choice(instruments[0], yes_only));
        lemma_first_choice(instruments.skip(1), yes_only, i - 1);
    }
}

fn position_of_choice(instruments: &[Instrument], yes_only: bool) -> (r: usize)
    ensures
        r == first_choice(instruments@, yes_only),
        r <= instruments@.len(),
{
    let mut i: usize = 0;
    while i < instruments.len()
        invariant
            i <= instruments@.len(),
            forall|k: int| 0 <= k < i ==> !is_choice(#[trigger] instruments@[k], yes_only),
        decreases instruments@.len() - i,
    {
        let option: bool = match instruments[i].kind {
            InstrumentKind::BinaryOption => true,
            _ => false,
        };
        if option && (!yes_only || instrument_is_yes(&instruments[i])) {
            proof {
                lemma_first_choice(instruments@, yes_only, i as int);
            }
            return i;
        }
        i += 1;
    }
    proof {
        lemma_first_choice(instruments@, yes_only, i as int);
    }
    i
}

/// Position of the instrument to use: the first binary option, else the first.
pub open spec fn picked(instruments: Seq<Instrument>) -> int {
    let i = first_choice(instruments, false);
    if i < instruments.len() {
        i
    } else {
        0
    }
}

/// The instrument to use: the first binary option, else the first.
pub fn pick_instrument<'a>(instruments: &'a [Instrument]) -> (r: Option<&'a Instrument>)
    ensures
        r == if instruments@.len() == 0 {
            None
        } else {
            Some(&instruments@[picked(instruments@)])
        },
{
    let i: usize = position_of_choice(instruments, false);
    if i < instruments.len() {
        Some(&instruments[i])
    } else if instruments.len() > 0 {
        Some(&instruments[0])
    } else {
        None
    }
}

/// The instrument to seed: the first YES option, else the first binary option, else the first.
pub fn pick_seed_instrument<'a>(instruments: &'a [Instrument]) -> (r: Option<&'a Instrument>)
    ensures
        r == if instruments@.len() == 0 {
            None
        } else if first_choice(instruments@, true) < instruments@.len() {
            Some(&instruments@[first_choice(instruments@, true)])
        } else {
            Some(&instruments@[picked(instruments@)])
        },
{
    let i: usize = position_of_choice(instruments, true);
    if i < instruments.len() {
        Some(&instruments[i])
    } else {
        pick_instrument(instruments)
    }
}

/// A count that the environment gives, at least one.
pub fn count_or(value: Option<&str>, default: u64) -> (r: u64)
    ensures
        r == ({
            let n = number_read(params::text_view(value), default);
            if n == 0 {
                1
            } else {
                n
            }
        }),
{
    let n: u64 = number_or(value, default);
    if n == 0 {
        1
    } else {
        n
    }
}

/// The number of a text without white space around it, or a default.
pub open spec fn number_read(value: Option<Seq<char>>, default: u64) -> u64 {
    match value {
        Some(text) => match text::parsed_u64(text::trimmed(text)) {
            Some(n) => n,
            None => default,
        },
        None => default,
    }
}

/// The number that the environment gives, or a default.
pub fn number_or(value: Option<&str>, default: u64) -> (r: u64)
    ensures
        r == number_read(params::text_view(value), default),
{
    match value {
        Some(value) => {
            let trimmed: String = text::trim(value);
            match text::parse_u64(trimmed.as_str()) {
                Some(n) => n,
                None => default,
            }
        },
        None => default,
    }
}

/// Thirty days.
pub const SEED_DEADLINE_SECS: u64 = 2_592_000;

/// The deadline of a seeded market: thirty days from now.
pub fn seed_deadline(now: u64) -> (r: u64)
    ensures
        r == if now + SEED_DEADLINE_SECS <= u64::MAX {
            now + SEED_DEADLINE_SECS
        } else {
            u64::MAX as int
        },
{
    if now <= u64::MAX - SEED_DEADLINE_SECS {
        now + SEED_DEADLINE_SECS
    } else {
        u64::MAX
    }
}

/// The question of seeded market `number`.
pub fn seed_question(number: u64, now: u64) -> (r: String)
    ensures
        r@ == "Dev seed market #"@ + text::decimal_text(number as nat) + " — will it rain? ("@
            + text::decimal_text(now as nat) + ")"@,
{
    let mut r: String = text::append("Dev seed market #", text::u64_text(number).as_str());
    r.append(" — will it rain? (");
    r.append(text::u64_text(now).as_str());
    r.append(")");
    r
}

/// Why a book cannot be seeded.
#[derive(Clone, Copy, Debug, PartialEq, Eq, Structural)]
pub enum SeedError {
    /// The step between levels is not positive.
    TickNotPositive,
    /// A bid is not above 0, or an ask not below 1.
    OutsideUnit,
    /// A price has too many places.
    InvalidPrice,
}

/// The step between levels has to be positive.
pub fn check_tick(tick: Decimal) -> (r: Result<(), SeedError>)
    requires
        tick.valid(),
    ensures
        r == if tick.mantissa > 0 {
            Ok::<(), SeedError>(())
        } else {
            Err(SeedError::TickNotPositive)
        },
{
    proof {
        decimal::lemma_pow10_values();
        decimal::lemma_pow10_positive(tick.scale as nat);
    }
    if Decimal::zero().less_than(tick) {
        Ok(())
    } else {
        Err(SeedError::TickNotPositive)
    }
}

/// Bid and ask of a level, as `rust_decimal` computes them from the middle and the step.
pub open spec fn level_decimals(mid: Decimal, tick: Decimal, number: u64) -> Option<
    (Decimal, Decimal),
> {
    match decimal::decimal_product(tick.mantissa, tick.scale, number as i128, 0) {
        None => None,
        Some((m, s)) => match (
            decimal::decimal_difference(mid.mantissa, mid.scale, m, s),
            decimal::decimal_sum(mid.mantissa, mid.scale, m, s),
        ) {
            (Some((bm, bs)), Some((am, asc))) => Some(
                (Decimal { mantissa: bm, scale: bs }, Decimal { mantissa: am, scale: asc }),
            ),
            _ => None,
        },
    }
}

/// The prices of a level: a bid above 0 and an ask below 1.
pub open spec fn level_prices(bid: Decimal, ask: Decimal) -> Result<(Price, Price), SeedError> {
    if bid.mantissa <= 0 || ask.mantissa >= decimal::pow10(ask.scale as nat) {
        Err(SeedError::OutsideUnit)
    } else {
        match (
            fixed::parsed_price(decimal::normalized_display(bid.mantissa, bid.scale)),
            fixed::parsed_price(decimal::normalized_display(ask.mantissa, ask.scale)),
        ) {
            (Some((b, bp)), Some((a, ap))) => Ok(
                (Price { raw: b, precision: bp }, Price { raw: a, precision: ap }),
            ),
            _ => Err(SeedError::InvalidPrice),
        }
    }
}

/// The prices of a level: a bid above 0 and an ask below 1.
pub fn check_level(bid: Decimal, ask: Decimal) -> (r: Result<(Price, Price), SeedError>)
    requires
        bid.valid(),
        ask.valid(),
    ensures
        r == level_prices(bid, ask),
{
    proof {
        decimal::lemma_pow10_values();
        decimal::lemma_pow10_positive(bid.scale as nat);
        assert(ask.mantissa * 1 == ask.mantissa);
    }
    if !Decimal::zero().less_than(bid) || !ask.less_than(Decimal::one()) {
        return Err(SeedError::OutsideUnit);
    }
    let bid_price: Option<Price> = Price::parse(bid.normalized_text().as_str());
    let ask_price: Option<Price> = Price::parse(ask.normalized_text().as_str());
    match (bid_price, ask_price) {
        (Some(bid), Some(ask)) => Ok((bid, ask)),
        _ => Err(SeedError::InvalidPrice),
    }
}

/// Bid and ask of level `number`, counted from one: that many steps below and above the middle.
/// `None` where they cannot be computed.
pub fn seed_level(mid: Decimal, tick: Decimal, number: u64) -> (r: Option<
    Result<(Price, Price), SeedError>,
>)
    requires
        mid.valid(),
        tick.valid(),
    ensures
        match level_decimals(mid, tick, number) {
            None => r is None,
            Some((bid, ask)) => r == Some(level_prices(bid, ask)),
        },
        ({
            let count = Decimal { mantissa: number as i128, scale: 0 };
            let (m, s) = decimal::product_parts(tick, count);
            let offset = Decimal { mantissa: m, scale: s };
            decimal::exact_product(tick, count) && decimal::exact_sum(mid, offset) ==> exists|
                bid: Decimal,
                ask: Decimal,
            |
                {
                    &&& #[trigger] decimal::is_sum(bid, offset, mid)
                    &&& #[trigger] decimal::is_sum(mid, offset, ask)
                    &&& r == Some(level_prices(bid, ask))
                }
        }),
{
    let offset: Decimal = match tick.checked_mul(Decimal::from_u64(number)) {
        Some(offset) => offset,
        None => {
            return None;
        },
    };
    match (mid.checked_sub(offset), mid.checked_add(offset)) {
        (Some(bid), Some(ask)) => Some(check_level(bid, ask)),
        _ => None,
    }
}

/// What is done with complete sets.
#[derive(Clone, Copy, Debug, PartialEq, Eq, Structural)]
pub enum OutcomeOp {
    /// Collateral to YES and NO.
    Mint,
    /// YES and NO to collateral.
    Burn,
}

/// What a word asks to do with complete sets.
pub fn outcome_op(op: &str) -> (r: Option<OutcomeOp>)
    ensures
        r == if op@ == "split"@ || op@ == "mint"@ {
            Some(OutcomeOp::Mint)
        } else if op@ == "merge"@ || op@ == "burn"@ {
            Some(OutcomeOp::Burn)
        } else {
            None
        },
{
    if text::same(op, "split") || text::same(op, "mint") {
        Some(OutcomeOp::Mint)
    } else if text::same(op, "merge") || text::same(op, "burn") {
        Some(OutcomeOp::Burn)
    } else {
        None
    }
}

/// The tokens of a market: collateral, YES and NO.
pub fn market_balance_specs(market: &Market, env: &Environment) -> (r: Vec<BalanceTokenSpec>)
    ensures
        r@.len() == 3,
        r@[0].symbol@ == currency::collateral_code(*env),
        r@[0].address == market.collateral_token,
        r@[1].symbol@ == "YES"@,
        r@[1].address == market.yes_token,
        r@[2].symbol@ == "NO"@,
        r@[2].address == market.no_token,
{
    let mut r: Vec<BalanceTokenSpec> = Vec::new();
    r.push(
        BalanceTokenSpec {
            symbol: currency::collateral_currency_code(env),
            address: market.collateral_token.clone(),
        },
    );
    r.push(
        BalanceTokenSpec { symbol: "YES".to_owned(), address: market.yes_token.clone() },
    );
    r.push(BalanceTokenSpec { symbol: "NO".to_owned(), address: market.no_token.clone() });
    r
}

/// Position of the first balance of a symbol, or the number of balances.
pub open spec fn balance_index(balances: Seq<BalanceEntry>, symbol: Seq<char>) -> int
    decreases balances.len(),
{
    if balances.len() == 0 || text::same_ignoring_case(balances[0].symbol@, symbol) {
        0
    } else {
        1 + balance_index(balances.skip(1), symbol)
    }
}

proof fn lemma_balance_index(balances: Seq<BalanceEntry>, symbol: Seq<char>, i: int)
    requires
        0 <= i <= balances.len(),
        forall|k: int|
            0 <= k < i ==> !text::same_ignoring_case((#[trigger] balances[k]).symbol@, symbol),
        i == balances.len() || text::same_ignoring_case(balances[i].symbol@, symbol),
    ensures
        balance_index(balances, symbol) == i,
    decreases i,
{
    if i > 0 {
        assert(!text::same_ignoring_case(balances[0].symbol@, symbol));
        lemma_balance_index(balances.skip(1), symbol, i - 1);
    }
}

/// What is available of a symbol: nothing where it has no balance, and no number where that is
/// none.
pub open spec fn available(balances: Seq<BalanceEntry>, symbol: Seq<char>) -> Option<Decimal> {
    let i = balance_index(balances, symbol);
    if i < balances.len() {
        match decimal::parsed_decimal(text::trimmed(balances[i].available@)) {
            Some((mantissa, scale)) => Some(Decimal { mantissa, scale }),
            None => None,
        }
    } else {
        Some(Decimal { mantissa: 0, scale: 0 })
    }
}

fn available_of(balances: &[BalanceEntry], symbol: &str) -> (r: Option<Decimal>)
    ensures
        r == available(balances@, symbol@),
        r matches Some(d) ==> d.valid(),
{
    let mut i: usize = 0;
    while i < balances.len()
        invariant
            i <= balances@.len(),
            forall|k: int|
                0 <= k < i ==> !text::same_ignoring_case(
                    (#[trigger] balances@[k]).symbol@,
                    symbol@,
                ),
        decreases balances@.len() - i,
    {
        if text::eq_ignore_ascii_case(balances[i].symbol.as_str(), symbol) {
            proof {
                lemma_balance_index(balances@, symbol@, i as int);
            }
            let body: String = text::trim(balances[i].available.as_str());
            return match Decimal::parse(body.as_str()) {
                Ok(value) => Some(value),
                Err(_) => None,
            };
        }
        i += 1;
    }
    proof {
        lemma_balance_index(balances@, symbol@, i as int);
    }
    Some(Decimal::zero())
}

/// Why nothing can be merged.
#[derive(Clone, Copy, Debug, PartialEq, Eq, Structural)]
pub enum MergeError {
    /// What is available of YES is no number.
    InvalidYes,
    /// What is available of NO is no number.
    InvalidNo,
    /// There is no complete set.
    NothingToMerge,
}

/// The sets to merge: as many as there are of both outcomes.
pub open spec fn merge_amount(yes: Decimal, no: Decimal) -> Result<Decimal, MergeError> {
    let amount = if no.below(yes) {
        no
    } else {
        yes
    };
    if amount.mantissa > 0 {
        Ok(amount)
    } else {
        Err(MergeError::NothingToMerge)
    }
}

/// The sets to merge of what is available: the smaller amount, where it is positive.
pub fn merge_amount_of(yes: Decimal, no: Decimal) -> (r: Result<Decimal, MergeError>)
    requires
        yes.valid(),
        no.valid(),
    ensures
        r == merge_amount(yes, no),
{
    let amount: Decimal = yes.min(no);
    proof {
        decimal::lemma_pow10_values();
        decimal::lemma_pow10_positive(amount.scale as nat);
    }
    if Decimal::zero().less_than(amount) {
        Ok(amount)
    } else {
        Err(MergeError::NothingToMerge)
    }
}

/// The sets to merge: as many as are available of both outcomes.
pub fn resolve_merge_amount(balances: &[BalanceEntry]) -> (r: Result<Decimal, MergeError>)
    ensures
        r == (match (available(balances@, "YES"@), available(balances@, "NO"@)) {
            (None, _) => Err::<Decimal, MergeError>(MergeError::InvalidYes),
            (Some(_), None) => Err(MergeError::InvalidNo),
            (Some(yes), Some(no)) => merge_amount(yes, no),
        }),
{
    let yes: Decimal = match available_of(balances, "YES") {
        Some(yes) => yes,
        None => {
            return Err(MergeError::InvalidYes);
        },
    };
    let no: Decimal = match available_of(balances, "NO") {
        Some(no) => no,
        None => {
            return Err(MergeError::InvalidNo);
        },
    };
    merge_amount_of(yes, no)
}

/// Cents with two places, where a text writes whole cents.
pub open spec fn cents_shown(price: Seq<char>) -> Option<Seq<char>> {
    match text::parsed_u64(text::trimmed(price)) {
        Some(cents) => Some(
            text::decimal_text((cents / 100) as nat) + "."@ + text::padded_text(
                (cents % 100) as nat,
                2,
            ),
        ),
        None => None,
    }
}

/// A price in cents as a number with two places.
pub fn cents_to_display(price: &str) -> (r: Option<String>)
    ensures
        params::string_view(r) == cents_shown(price@),
{
    let trimmed: String = text::trim(price);
    match text::parse_u64(trimmed.as_str()) {
        Some(cents) => {
            let mut r: String = text::append(text::u64_text(cents / 100).as_str(), ".");
            r.append(text::padded_u64_text(cents % 100, 2).as_str());
            Some(r)
        },
        None => None,
    }
}

/// A level as `size@price`.
pub open spec fn level_shown(level: BookLevel) -> Seq<char> {
    level.size@ + "@"@ + match cents_shown(level.price@) {
        Some(price) => price,
        None => "?"@,
    }
}

/// The levels of a side.
pub fn format_levels(levels: &[BookLevel]) -> (r: String)
    ensures
        r@ == if levels@.len() == 0 {
            "[-]"@
        } else {
            text::joined(levels@.map_values(|level: BookLevel| level_shown(level)), ", "@)
        },
{
    if levels.len() == 0 {
        return "[-]".to_owned();
    }
    let mut shown: Vec<String> = Vec::new();
    let ghost wanted = levels@.map_values(|level: BookLevel| level_shown(level));
    let mut i: usize = 0;
    while i < levels.len()
        invariant
            i <= levels@.len(),
            wanted == levels@.map_values(|level: BookLevel| level_shown(level)),
            text::texts(shown@) == wanted.take(i as int),
        decreases levels@.len() - i,
    {
        let mut item: String = text::append(levels[i].size.as_str(), "@");
        match cents_to_display(levels[i].price.as_str()) {
            Some(price) => {
                item.append(price.as_str());
            },
            None => {
                item.append("?");
            },
        }
        let ghost before = text::texts(shown@);
        shown.push(item);
        proof {
            assert(text::texts(shown@) =~= before.push(item@));
            assert(text::texts(shown@) =~= wanted.take(i + 1));
        }
        i += 1;
    }
    assert(wanted.take(i as int) =~= wanted);
    text::join(&shown, ", ")
}

/// The best level of a side as `size@price`, a dash where it is empty.
pub fn best_level(levels: &[BookLevel]) -> (r: String)
    ensures
        r@ == if levels@.len() == 0 {
            "-"@
        } else {
            levels@[0].size@ + "@"@ + levels@[0].price@
        },
{
    if levels.len() == 0 {
        return "-".to_owned();
    }
    let mut r: String = text::append(levels[0].size.as_str(), "@");
    r.append(levels[0].price.as_str());
    r
}

/// An outcome other than yes and no.
pub open spec fn outcome_refusal(outcome: Seq<char>) -> Seq<char> {
    "--outcome must be yes or no, got "@ + outcome
}

/// The spot market of an outcome.
pub fn spot_market_for_outcome(market: &Market, outcome: &str) -> (r: Result<String, String>)
    ensures
        outcome@ == "yes"@ ==> r == Ok::<String, String>(market.yes_spot_market),
        outcome@ != "yes"@ && outcome@ == "no"@ ==> r == Ok::<String, String>(
            market.no_spot_market,
        ),
        outcome@ != "yes"@ && outcome@ != "no"@ ==> r is Err && r->Err_0@ == outcome_refusal(
            outcome@,
        ),
{
    if text::same(outcome, "yes") {
        Ok(market.yes_spot_market.clone())
    } else if text::same(outcome, "no") {
        Ok(market.no_spot_market.clone())
    } else {
        Err(text::append("--outcome must be yes or no, got ", outcome))
    }
}

/// The instrument of a market slug and an outcome, whatever its case.
pub fn outcome_instrument_id(slug: &str, outcome: &str) -> (r: Result<InstrumentId, String>)
    ensures
        ({
            let label = text::lower(text::trimmed(outcome@));
            if label == "yes"@ {
                r is Ok && r->Ok_0@ == (slug@ + "-YES"@, "LIGHTPOOL"@)
            } else if label == "no"@ {
                r is Ok && r->Ok_0@ == (slug@ + "-NO"@, "LIGHTPOOL"@)
            } else {
                r is Err && r->Err_0@ == outcome_refusal(label)
            }
        }),
{
    let trimmed: String = text::trim(outcome);
    let label: String = text::to_ascii_lowercase(trimmed.as_str());
    let symbol: String = if text::same(label.as_str(), "yes") {
        text::append(slug, "-YES")
    } else if text::same(label.as_str(), "no") {
        text::append(slug, "-NO")
    } else {
        return Err(text::append("--outcome must be yes or no, got ", label.as_str()));
    };
    Ok(InstrumentId { symbol, venue: "LIGHTPOOL".to_owned() })
}

/// A balance is found by its symbol, in whatever case: the first one that has it.
pub proof fn law_balances_are_found_by_symbol(items: Seq<BalanceEntry>, key: Seq<char>)
    ensures
        0 <= balance_index(items, key) <= items.len(),
        balance_index(items, key) < items.len() ==> text::lower(items[balance_index(items, key)].symbol@)
            == text::lower(key),
        forall|i: int|
            0 <= i < balance_index(items, key) ==> text::lower((#[trigger] items[i]).symbol@)
                != text::lower(key),
    decreases items.len(),
{
    if items.len() > 0 && !text::same_ignoring_case(items[0].symbol@, key) {
        let rest = items.skip(1);
        law_balances_are_found_by_symbol(rest, key);
        assert forall|i: int| 0 <= i < balance_index(items, key) implies text::lower(
            (#[trigger] items[i]).symbol@,
        ) != text::lower(key) by {
            if i > 0 {
                assert(rest[i - 1] == items[i]);
            }
        }
    }
}

/// What can be merged is the smaller of the two amounts, and nothing where it is not positive.
pub proof fn law_merged_amounts(yes: Decimal, no: Decimal)
    ensures
        merge_amount(yes, no) matches Ok(amount) ==> {
            &&& amount == yes || amount == no
            &&& amount.mantissa > 0
            &&& !yes.below(amount)
            &&& !no.below(amount)
        },
        yes.mantissa <= 0 && no.mantissa <= 0 ==> merge_amount(yes, no) is Err,
{
    if yes.below(no) && no.below(yes) {
    }
}

/// An instrument is picked by being an option: the first option, of YES where that is asked for, or
/// the first instrument without one.
pub proof fn law_first_option_is_picked(instruments: Seq<Instrument>, yes_only: bool)
    ensures
        ({
            let n = first_choice(instruments, yes_only);
            &&& 0 <= n <= instruments.len()
            &&& n < instruments.len() ==> instruments[n].kind == InstrumentKind::BinaryOption && (
            yes_only ==> text::has_part(text::upper(instruments[n].id.symbol@), "YES"@))
            &&& forall|i: int|
                0 <= i < n ==> !((#[trigger] instruments[i]).kind == InstrumentKind::BinaryOption
                    && (yes_only ==> text::has_part(
                    text::upper(instruments[i].id.symbol@),
                    "YES"@,
                )))
        }),
        instruments.len() > 0 ==> 0 <= picked(instruments) < instruments.len(),
    decreases instruments.len(),
{
    if instruments.len() > 0 && !is_choice(instruments[0], yes_only) {
        let rest = instruments.skip(1);
        law_first_option_is_picked(rest, yes_only);
        let n = first_choice(instruments, yes_only);
        assert forall|i: int| 0 <= i < n implies !((#[trigger] instruments[i]).kind
            == InstrumentKind::BinaryOption && (yes_only ==> text::has_part(
            text::upper(instruments[i].id.symbol@),
            "YES"@,
        ))) by {
            if i > 0 {
                assert(rest[i - 1] == instruments[i]);
            }
        }
    }
    if instruments.len() > 0 {
        lemma_choice_range(instruments, false);
    }
}

proof fn lemma_choice_range(instruments: Seq<Instrument>, yes_only: bool)
    ensures
        0 <= first_choice(instruments, yes_only) <= instruments.len(),
    decreases instruments.len(),
{
    if instruments.len() > 0 && !is_choice(instruments[0], yes_only) {
        lemma_choice_range(instruments.skip(1), yes_only);
    }
}

/// A level of the seed book stays inside of 0 and 1.
pub proof fn law_seed_levels_stay_inside(bid: Decimal, ask: Decimal)
    ensures
        level_prices(bid, ask) is Ok ==> bid.mantissa > 0 && ask.mantissa < decimal::pow10(
            ask.scale as nat,
        ),
        bid.mantissa <= 0 || ask.mantissa >= decimal::pow10(ask.scale as nat) ==> level_prices(
            bid,
            ask,
        ) == Err::<(Price, Price), SeedError>(SeedError::OutsideUnit),
        level_prices(bid, ask) matches Ok((b, a)) ==> fixed::parsed_price(
            decimal::normalized_display(bid.mantissa, bid.scale),
        ) == Some((b.raw, b.precision)) && fixed::parsed_price(
            decimal::normalized_display(ask.mantissa, ask.scale),
        ) == Some((a.raw, a.precision)),
{
}

/// A number is read as it is written, with white space around it or not, and what is no number
/// counts as the default.
pub proof fn law_numbers_are_read(n: u64, value: Seq<char>, default: u64)
    ensures
        number_read(None, default) == default,
        text::trimmed(value) == text::decimal_text(n as nat) ==> number_read(Some(value), default)
            == n,
        text::parsed_u64(text::trimmed(value)) is None ==> number_read(Some(value), default)
            == default,
{
    text::lemma_number_is_read_back(n);
}

/// A price of `cents` is shown in whole units and two places.
pub proof fn law_shown_cents(price: Seq<char>, cents: u64)
    requires
        text::trimmed(price) == text::decimal_text(cents as nat),
    ensures
        cents_shown(price) matches Some(shown) && {
            let n = shown.len();
            &&& n > 3
            &&& shown[n - 3] == '.'
            &&& text::number_of(shown.take(n - 3)) * 100 + text::number_of(shown.skip(n - 2)) == cents
        },
{
    text::lemma_number_is_read_back(cents);
    let whole = text::decimal_text((cents / 100) as nat);
    let rest = text::padded_text((cents % 100) as nat, 2);
    text::lemma_decimal_text((cents / 100) as nat);
    text::law_padded_numbers((cents % 100) as nat, 2);
    reveal_strlit(".");
    let shown = whole + "."@ + rest;
    assert(shown.take(shown.len() - 3) =~= whole);
    assert(shown.skip(shown.len() - 2) =~= rest);
}

/// What is available of a token is what the first balance with its symbol says, and nothing where no
/// balance has it.
pub proof fn law_available_amounts(balances: Seq<BalanceEntry>, symbol: Seq<char>)
    ensures
        (forall|i: int|
            0 <= i < balances.len() ==> text::lower((#[trigger] balances[i]).symbol@)
                != text::lower(symbol)) ==> available(balances, symbol) == Some(
            Decimal { mantissa: 0, scale: 0 },
        ),
        balances.len() > 0 && text::lower(balances[0].symbol@) == text::lower(symbol) ==> match decimal::parsed_decimal(
            text::trimmed(balances[0].available@),
        ) {
            Some((mantissa, scale)) => available(balances, symbol) == Some(
                Decimal { mantissa, scale },
            ),
            None => available(balances, symbol) is None,
        },
{
    law_balances_are_found_by_symbol(balances, symbol);
}

/// Something can be merged exactly where there is something of both outcomes.
pub proof fn law_merging_needs_both(yes: Decimal, no: Decimal)
    ensures
        merge_amount(yes, no) is Ok <==> yes.mantissa > 0 && no.mantissa > 0,
{
    decimal::lemma_pow10_positive(yes.scale as nat);
    decimal::lemma_pow10_positive(no.scale as nat);
    let p = decimal::pow10(yes.scale as nat);
    let q = decimal::pow10(no.scale as nat);
    let y = yes.mantissa as int;
    let n = no.mantissa as int;
    assert((y > 0 && n <= 0 ==> n * p < y * q) && (n > 0 && y <= 0 ==> !(n * p < y * q)))
        by (nonlinear_arith)
        requires
            p > 0,
            q > 0,
    ;
}

} // verus!
