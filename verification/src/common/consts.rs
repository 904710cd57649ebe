//! Constants of the LightPool adapter.

use vstd::prelude::*;

verus! {

pub const LIGHTPOOL: &'static str = "LIGHTPOOL";

/// LightPool stack release this adapter targets (node / sdk / indexer / bridge).
pub const LIGHTPOOL_STACK_VERSION: &'static str = "0.5.0";

/// Raw units of one token.
pub const TOKEN_SCALE: u64 = 1_000_000;

/// Collateral token symbol used for LightPool spot markets (quote currency).
pub const DEFAULT_COLLATERAL_CURRENCY: &'static str = "USDT";

/// Default on-chain collateral token when `LIGHTPOOL_COLLATERAL_TOKEN` is unset.
pub const DEFAULT_COLLATERAL_TOKEN: &'static str = "0x0200000000000001";

/// LightPool spot prices are quoted in USDT probability (0-1).
pub const MIN_PRICE: &'static str = "0";

pub const MAX_PRICE: &'static str = "1";

pub const PRICE_TICK: &'static str = "0.001";

pub const DEFAULT_CLOB_INDEX_HTTP: &'static str = "http://127.0.0.1:3002";

pub const DEFAULT_CLOB_INDEX_WS: &'static str = "ws://127.0.0.1:3002";

/// Total HTTP request timeout when calling lightpool-clob-indexer (submit waits for receipt).
pub const DEFAULT_CLOB_INDEX_HTTP_TIMEOUT_SECS: u64 = 90;

/// TCP connect timeout for lightpool-clob-indexer HTTP.
pub const DEFAULT_CLOB_INDEX_HTTP_CONNECT_TIMEOUT_SECS: u64 = 10;

/// Default spot tick size (0.001) in raw token units.
pub const DEFAULT_TICK_SIZE_RAW: u64 = 1_000;

} // verus!
