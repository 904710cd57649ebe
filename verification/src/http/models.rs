//! Resources of the clob-index HTTP API.

use vstd::prelude::*;

verus! {

/// A price and a size, as clob-index writes them.
#[derive(Debug)]
pub struct BookLevel {
    pub price: String,
    pub size: String,
}

#[derive(Debug)]
pub struct BookSnapshot {
    pub sequence: u64,
    pub bids: Vec<BookLevel>,
    pub asks: Vec<BookLevel>,
    pub last_trade_price: Option<String>,
}

#[derive(Debug)]
pub struct SpotMarketInfo {
    pub last_price: Option<String>,
    pub state: String,
    pub min_order_size: String,
    pub tick_size: String,
    pub maker_fee_bps: u16,
    pub taker_fee_bps: u16,
    pub allow_market_orders: bool,
}

#[derive(Debug)]
pub struct Market {
    pub id: String,
    pub slug: String,
    pub question: String,
    pub icon_url: Option<String>,
    pub market_address: String,
    pub collateral_token: String,
    pub yes_token: String,
    pub no_token: String,
    pub yes_spot_market: String,
    pub no_spot_market: String,
    pub state: String,
    /// Unix seconds.
    pub resolution_deadline: u64,
}

#[derive(Debug)]
pub struct MarketsPage {
    pub markets: Vec<Market>,
    pub total: usize,
    pub limit: u32,
    pub offset: u32,
}

/// A token whose balance is asked for.
#[derive(Debug)]
pub struct BalanceTokenSpec {
    pub symbol: String,
    pub address: String,
}

/// A token balance, amounts in tokens.
#[derive(Debug)]
pub struct BalanceEntry {
    pub symbol: String,
    pub total: String,
    pub locked: String,
    pub available: String,
}

/// An order as the index holds it.
#[derive(Debug)]
pub struct OrderQueryResponse {
    pub chain_order_id: String,
    pub status: String,
    /// Size in tokens.
    pub size: String,
    pub size_raw: u64,
    pub filled_raw: u64,
}

} // verus!
