//! Creating and minting event contracts, and waiting until clob-index has them.

use vstd::prelude::*;

use crate::http::models::Market;
use crate::text;

verus! {

/// Result of creating and minting one LightPool event market.
#[derive(Debug)]
pub struct BootstrappedMarket {
    pub question: String,
    pub market_address: String,
    pub yes_token: String,
    pub no_token: String,
    pub slug: String,
}

/// What a new event contract is to be. The signer is its oracle, and it has no risk group.
#[derive(Debug)]
pub struct EventContractPlan {
    pub question: String,
    pub collateral_token: String,
    pub resolution_deadline: u64,
    pub tick_size: u64,
    pub min_order_size: u64,
    pub maker_fee_bps: u16,
    pub taker_fee_bps: u16,
    pub allow_market_orders: bool,
}

/// What the receipt says of a new event contract.
#[derive(Debug)]
pub struct EventContractCreated {
    pub market_address: String,
    pub collateral_token: String,
    pub yes_token: String,
    pub no_token: String,
}

/// Seconds to wait until clob-index has a new market.
pub const INDEX_WAIT_SECS: u64 = 30;

/// Milliseconds between two looks.
pub const INDEX_POLL_MILLIS: u64 = 300;

/// What a new event contract is to be.
pub fn create_event_contract(
    question: &str,
    collateral_token: &str,
    resolution_deadline: u64,
    tick_size: u64,
    min_order_size: u64,
    maker_fee_bps: u16,
    taker_fee_bps: u16,
    allow_market_orders: bool,
) -> (r: EventContractPlan)
    ensures
        r.question@ == question@,
        r.collateral_token@ == text::trimmed(collateral_token@),
        r.resolution_deadline == resolution_deadline,
        r.tick_size == tick_size,
        r.min_order_size == min_order_size,
        r.maker_fee_bps == maker_fee_bps,
        r.taker_fee_bps == taker_fee_bps,
        r.allow_market_orders == allow_market_orders,
{
    EventContractPlan {
        question: question.to_owned(),
        collateral_token: text::trim(collateral_token),
        resolution_deadline,
        tick_size,
        min_order_size,
        maker_fee_bps,
        taker_fee_bps,
        allow_market_orders,
    }
}

/// The new contract that a receipt reports, or why there is none.
pub fn created_event(success: bool, status: &str, created: Option<EventContractCreated>) -> (r: Result<
    EventContractCreated,
    String,
>)
    ensures
        !success ==> r is Err && r->Err_0@ == "create_event_contract failed: "@ + status@,
        success && created is None ==> r is Err && r->Err_0@
            == "event_contract_created missing from receipt"@,
        success && created is Some ==> r == Ok::<EventContractCreated, String>(created->Some_0),
{
    if !success {
        return Err(text::append("create_event_contract failed: ", status));
    }
    match created {
        Some(created) => Ok(created),
        None => Err("event_contract_created missing from receipt".to_owned()),
    }
}

/// Position of the first market with an address, or the number of markets.
pub open spec fn address_index(markets: Seq<Market>, address: Seq<char>) -> int
    decreases markets.len(),
{
    if markets.len() == 0 || text::same_ignoring_case(markets[0].market_address@, address) {
        0
    } else {
        1 + address_index(markets.skip(1), address)
    }
}

/// The first market with an address, up to case.
pub open spec fn market_at(markets: Seq<Market>, address: Seq<char>) -> Option<Market> {
    let i = address_index(markets, address);
    if i < markets.len() {
        Some(markets[i])
    } else {
        None
    }
}

proof fn lemma_address_index(markets: Seq<Market>, address: Seq<char>, i: int)
    requires
        0 <= i <= markets.len(),
        forall|k: int|
            0 <= k < i ==> !text::same_ignoring_case(
                (#[trigger] markets[k]).market_address@,
                address,
            ),
        i == markets.len() || text::same_ignoring_case(markets[i].market_address@, address),
    ensures
        address_index(markets, address) == i,
    decreases i,
{
    if i > 0 {
        assert(!text::same_ignoring_case(markets[0].market_address@, address));
        lemma_address_index(markets.skip(1), address, i - 1);
    }
}

/// Waits for a market to be indexed.
#[derive(Debug)]
pub struct MarketWait {
    pub market_address: String,
    pub last_error: Option<String>,
}

/// The wait ended without the market.
#[derive(Debug)]
pub struct WaitTimeout {
    pub message: String,
    /// The last failed look.
    pub cause: Option<String>,
}

impl MarketWait {
    pub fn new(market_address: &str) -> (r: MarketWait)
        ensures
            r.market_address@ == market_address@,
            r.last_error is None,
    {
        MarketWait { market_address: market_address.to_owned(), last_error: None }
    }

    /// Takes the answer to a look: the market, where it is there.
    pub fn poll(&mut self, answer: Result<Vec<Market>, String>) -> (r: Option<Market>)
        ensures
            final(self).market_address == old(self).market_address,
            match answer {
                Ok(markets) => final(self).last_error == old(self).last_error && r == market_at(
                    markets@,
                    old(self).market_address@,
                ),
                Err(e) => final(self).last_error == Some(e) && r is None,
            },
    {
        match answer {
            Ok(markets) => {
                let mut markets: Vec<Market> = markets;
                let ghost all = markets@;
                let mut i: usize = 0;
                while i < markets.len()
                    invariant
                        i <= markets@.len(),
                        markets@ == all,
                        answer matches Ok(given) && given@ == all,
                        *self == *old(self),
                        forall|k: int|
                            0 <= k < i ==> !text::same_ignoring_case(
                                (#[trigger] markets@[k]).market_address@,
                                self.market_address@,
                            ),
                    decreases markets@.len() - i,
                {
                    if text::eq_ignore_ascii_case(
                        markets[i].market_address.as_str(),
                        self.market_address.as_str(),
                    ) {
                        proof {
                            lemma_address_index(markets@, self.market_address@, i as int);
                        }
                        return Some(markets.swap_remove(i));
                    }
                    i += 1;
                }
                proof {
                    lemma_address_index(markets@, self.market_address@, i as int);
                }
                None
            },
            Err(e) => {
                self.last_error = Some(e);
                None
            },
        }
    }

    /// The error of a wait that took too long.
    pub fn timed_out(self) -> (r: WaitTimeout)
        ensures
            r.message@ == "timed out waiting for market "@ + self.market_address@
                + " in clob-index"@,
            r.cause == self.last_error,
    {
        let mut message: String = text::append(
            "timed out waiting for market ",
            self.market_address.as_str(),
        );
        message.append(" in clob-index");
        WaitTimeout { message, cause: self.last_error }
    }
}

/// What `bootstrap_one_market` creates: ticks of 0.001, orders of at least 0.1, fees of 10 and 20
/// basis points, market orders allowed.
pub fn plan_bootstrap(question: &str, collateral_token: &str, resolution_deadline: u64) -> (r:
    EventContractPlan)
    ensures
        r.question@ == question@,
        r.collateral_token@ == text::trimmed(collateral_token@),
        r.resolution_deadline == resolution_deadline,
        r.tick_size == 1_000,
        r.min_order_size == 100_000,
        r.maker_fee_bps == 10,
        r.taker_fee_bps == 20,
        r.allow_market_orders,
{
    create_event_contract(
        question,
        collateral_token,
        resolution_deadline,
        1_000,
        100_000,
        10,
        20,
        true,
    )
}

/// The bootstrapped market, once it is minted and indexed.
pub fn bootstrap_one_market(question: &str, created: EventContractCreated, indexed: Market) -> (r:
    BootstrappedMarket)
    ensures
        r.question@ == question@,
        r.market_address == created.market_address,
        r.yes_token == created.yes_token,
        r.no_token == created.no_token,
        r.slug == indexed.slug,
{
    BootstrappedMarket {
        question: question.to_owned(),
        market_address: created.market_address,
        yes_token: created.yes_token,
        no_token: created.no_token,
        slug: indexed.slug,
    }
}

/// A market is found by its address, in whatever case: the first one that has it.
pub proof fn law_markets_are_found_by_address(items: Seq<Market>, key: Seq<char>)
    ensures
        0 <= address_index(items, key) <= items.len(),
        address_index(items, key) < items.len() ==> text::lower(items[address_index(items, key)].market_address@)
            == text::lower(key),
        forall|i: int|
            0 <= i < address_index(items, key) ==> text::lower((#[trigger] items[i]).market_address@)
                != text::lower(key),
    decreases items.len(),
{
    if items.len() > 0 && !text::same_ignoring_case(items[0].market_address@, key) {
        let rest = items.skip(1);
        law_markets_are_found_by_address(rest, key);
        assert forall|i: int| 0 <= i < address_index(items, key) implies text::lower(
            (#[trigger] items[i]).market_address@,
        ) != text::lower(key) by {
            if i > 0 {
                assert(rest[i - 1] == items[i]);
            }
        }
    }
}

/// What waiting finds is a listed market with the address, and it finds one where there is one.
pub proof fn law_waiting_finds_the_market(markets: Seq<Market>, address: Seq<char>)
    ensures
        market_at(markets, address) matches Some(market) ==> markets.contains(market)
            && text::lower(market.market_address@) == text::lower(address),
        forall|i: int|
            0 <= i < markets.len() && text::lower((#[trigger] markets[i]).market_address@)
                == text::lower(address) ==> market_at(markets, address) is Some,
{
    law_markets_are_found_by_address(markets, address);
}

} // verus!
