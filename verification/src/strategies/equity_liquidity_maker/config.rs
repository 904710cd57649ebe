//! Configuration for the equity liquidity maker strategy.

use vstd::prelude::*;

use crate::config::SpotMarketBootstrap;

verus! {

/// One equity symbol mirrored from Hyperliquid onto a LightPool spot.
#[derive(Debug)]
pub struct EquityMarketPair {
    pub symbol: String,
    pub hl_coin: String,
    pub spot: SpotMarketBootstrap,
}

/// Configuration for mirroring Hyperliquid equity L2 onto LightPool spots.
#[derive(Debug)]
pub struct EquityLiquidityMakerConfig {
    pub strategy_id: String,
    pub order_id_tag: String,
    pub markets: Vec<EquityMarketPair>,
    pub depth: usize,
    pub log_interval: u64,
    pub managed_book: bool,
    pub lightpool_client_id: String,
    pub reconcile_delta_batch_size: u64,
}

impl EquityLiquidityMakerConfig {
    pub fn new(markets: Vec<EquityMarketPair>) -> (r: EquityLiquidityMakerConfig)
        ensures
            r.strategy_id@ == "EQUITY_LIQUIDITY_MAKER-001"@,
            r.order_id_tag@ == "ELM001"@,
            r.markets == markets,
            r.depth == 10,
            r.log_interval == 50,
            r.managed_book,
            r.lightpool_client_id@ == "LIGHTPOOL"@,
            r.reconcile_delta_batch_size == 10,
    {
        EquityLiquidityMakerConfig {
            strategy_id: "EQUITY_LIQUIDITY_MAKER-001".to_owned(),
            order_id_tag: "ELM001".to_owned(),
            markets,
            depth: 10,
            log_interval: 50,
            managed_book: true,
            lightpool_client_id: "LIGHTPOOL".to_owned(),
            reconcile_delta_batch_size: 10,
        }
    }

    /// At least one level.
    pub fn with_depth(self, depth: usize) -> (r: EquityLiquidityMakerConfig)
        ensures
            r == (EquityLiquidityMakerConfig {
                depth: if depth == 0 {
                    1
                } else {
                    depth
                },
                ..self
            }),
    {
        EquityLiquidityMakerConfig {
            depth: if depth == 0 {
                1
            } else {
                depth
            },
            ..self
        }
    }

    pub fn with_log_interval(self, log_interval: u64) -> (r: EquityLiquidityMakerConfig)
        ensures
            r == (EquityLiquidityMakerConfig { log_interval, ..self }),
    {
        EquityLiquidityMakerConfig { log_interval, ..self }
    }

    pub fn with_strategy_id(self, strategy_id: String) -> (r: EquityLiquidityMakerConfig)
        ensures
            r == (EquityLiquidityMakerConfig { strategy_id, ..self }),
    {
        EquityLiquidityMakerConfig { strategy_id, ..self }
    }

    /// At least one delta.
    pub fn with_reconcile_delta_batch_size(self, size: u64) -> (r: EquityLiquidityMakerConfig)
        ensures
            r == (EquityLiquidityMakerConfig {
                reconcile_delta_batch_size: if size == 0 {
                    1
                } else {
                    size
                },
                ..self
            }),
    {
        EquityLiquidityMakerConfig {
            reconcile_delta_batch_size: if size == 0 {
                1
            } else {
                size
            },
            ..self
        }
    }

    pub fn with_lightpool_client_id(self, client_id: String) -> (r: EquityLiquidityMakerConfig)
        ensures
            r == (EquityLiquidityMakerConfig { lightpool_client_id: client_id, ..self }),
    {
        EquityLiquidityMakerConfig { lightpool_client_id: client_id, ..self }
    }
}

} // verus!
