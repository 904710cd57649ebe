//! Messages of the clob-index WebSocket API.

use vstd::prelude::*;

use crate::http::models::BookLevel;
use crate::params::Params;

verus! {

#[derive(Debug)]
pub struct OrderBookDelta {
    pub msg_type: String,
    pub spot_market: String,
    pub sequence: u64,
    pub block_num: u64,
    pub bids: Vec<BookLevel>,
    pub asks: Vec<BookLevel>,
    pub last_trade_price: Option<String>,
}

#[derive(Debug)]
pub struct OrderBookWsSnapshot {
    pub msg_type: String,
    pub spot_market: String,
    pub sequence: u64,
    pub bids: Vec<BookLevel>,
    pub asks: Vec<BookLevel>,
    pub last_trade_price: Option<String>,
}

#[derive(Debug)]
pub struct WsError {
    pub msg_type: String,
    pub error: String,
}

#[derive(Debug)]
pub struct WsSubscribed {
    pub msg_type: String,
    pub channel: String,
    pub key: String,
}

#[derive(Debug)]
pub struct QuoteSnapshot {
    pub msg_type: String,
    pub spot_market: String,
    pub sequence: u64,
    pub best_bid: Option<BookLevel>,
    pub best_ask: Option<BookLevel>,
    pub last_trade_price: Option<String>,
}

#[derive(Debug)]
pub struct QuoteDelta {
    pub msg_type: String,
    pub spot_market: String,
    pub sequence: u64,
    pub block_num: u64,
    pub best_bid: Option<BookLevel>,
    pub best_ask: Option<BookLevel>,
    pub last_trade_price: Option<String>,
}

/// User order update from clob-index `channel=user` (`type=order`).
///
/// Extra flattened order fields are kept in `extra` for forward compatibility.
#[derive(Debug)]
pub struct UserOrderMessage {
    pub msg_type: String,
    pub event: String,
    pub user_address: String,
    pub chain_order_id: String,
    pub spot_market: Option<String>,
    pub block_num: Option<u64>,
    pub extra: Params,
}

/// User trade/fill update from clob-index `channel=user` (`type=trade`).
#[derive(Debug)]
pub struct UserTradeMessage {
    pub msg_type: String,
    pub user_address: String,
    pub chain_order_id: String,
    pub order_id: Option<String>,
    pub cloid: Option<String>,
    pub market_slug: Option<String>,
    pub outcome: Option<String>,
    pub side: Option<String>,
    pub price: Option<String>,
    pub fill_amount: Option<String>,
    pub remaining_amount: Option<String>,
    pub is_fully_filled: Option<bool>,
    pub spot_market: Option<String>,
    pub block_num: Option<u64>,
}

} // verus!
