//! Configuration for the liquidity maker strategy.

use vstd::prelude::*;

verus! {

/// Configuration for subscribing Polymarket order book deltas with managed cache books.
#[derive(Debug)]
pub struct LiquidityMakerConfig {
    pub strategy_id: Option<String>,
    pub order_id_tag: Option<String>,
    /// Polymarket event slugs to mirror (resolved to instruments via data client filters).
    pub polymarket_slugs: Vec<String>,
    /// LightPool market slugs to mirror (resolved via clob-index bootstrap).
    pub lightpool_slugs: Vec<String>,
    /// Number of price levels to retain per side.
    pub depth: usize,
    /// Log top-of-book snapshot every N delta batches. `0` disables logging.
    pub log_interval: u64,
    /// When `true`, subscribe with managed books so the data engine also
    /// maintains an order book in cache.
    pub managed_book: bool,
    /// When `true`, resolve LightPool markets for trading (no order book subscription).
    pub lightpool_enabled: bool,
    /// When `true`, print Polymarket order book snapshots from cache.
    pub log_polymarket: bool,
    /// When `true`, mirror Polymarket depth onto LightPool via execution client.
    pub trading_enabled: bool,
    /// Execution client id for LightPool order submission.
    pub lightpool_client_id: String,
    /// Number of Polymarket book deltas to batch before reconciling once.
    pub reconcile_delta_batch_size: u64,
}

impl LiquidityMakerConfig {
    /// Creates a new config for the given Polymarket event slugs.
    pub fn new(polymarket_slugs: Vec<String>) -> (r: LiquidityMakerConfig)
        ensures
            r.strategy_id matches Some(id) && id@ == "LIQUIDITY_MAKER-001"@,
            r.order_id_tag matches Some(tag) && tag@ == "001"@,
            r.polymarket_slugs == polymarket_slugs,
            r.lightpool_slugs@.len() == 0,
            r.depth == 10,
            r.log_interval == 0,
            r.managed_book,
            r.lightpool_enabled,
            r.log_polymarket,
            !r.trading_enabled,
            r.lightpool_client_id@ == "LIGHTPOOL"@,
            r.reconcile_delta_batch_size == 10,
    {
        LiquidityMakerConfig {
            strategy_id: Some("LIQUIDITY_MAKER-001".to_owned()),
            order_id_tag: Some("001".to_owned()),
            polymarket_slugs,
            lightpool_slugs: Vec::new(),
            depth: 10,
            log_interval: 0,
            managed_book: true,
            lightpool_enabled: true,
            log_polymarket: true,
            trading_enabled: false,
            lightpool_client_id: "LIGHTPOOL".to_owned(),
            reconcile_delta_batch_size: 10,
        }
    }

    pub fn with_lightpool_slugs(self, lightpool_slugs: Vec<String>) -> (r: LiquidityMakerConfig)
        ensures
            r == (LiquidityMakerConfig { lightpool_slugs, ..self }),
    {
        LiquidityMakerConfig { lightpool_slugs, ..self }
    }

    /// At least one level is retained.
    pub fn with_depth(self, depth: usize) -> (r: LiquidityMakerConfig)
        ensures
            r == (LiquidityMakerConfig {
                depth: if depth == 0 {
                    1
                } else {
                    depth
                },
                ..self
            }),
    {
        let depth: usize = if depth == 0 {
            1
        } else {
            depth
        };
        LiquidityMakerConfig { depth, ..self }
    }

    pub fn with_log_interval(self, log_interval: u64) -> (r: LiquidityMakerConfig)
        ensures
            r == (LiquidityMakerConfig { log_interval, ..self }),
    {
        LiquidityMakerConfig { log_interval, ..self }
    }

    pub fn with_managed_book(self, managed: bool) -> (r: LiquidityMakerConfig)
        ensures
            r == (LiquidityMakerConfig { managed_book: managed, ..self }),
    {
        LiquidityMakerConfig { managed_book: managed, ..self }
    }

    pub fn with_lightpool_enabled(self, enabled: bool) -> (r: LiquidityMakerConfig)
        ensures
            r == (LiquidityMakerConfig { lightpool_enabled: enabled, ..self }),
    {
        LiquidityMakerConfig { lightpool_enabled: enabled, ..self }
    }

    pub fn with_log_polymarket(self, enabled: bool) -> (r: LiquidityMakerConfig)
        ensures
            r == (LiquidityMakerConfig { log_polymarket: enabled, ..self }),
    {
        LiquidityMakerConfig { log_polymarket: enabled, ..self }
    }

    pub fn with_strategy_id(self, strategy_id: String) -> (r: LiquidityMakerConfig)
        ensures
            r == (LiquidityMakerConfig { strategy_id: Some(strategy_id), ..self }),
    {
        LiquidityMakerConfig { strategy_id: Some(strategy_id), ..self }
    }

    pub fn with_trading_enabled(self, enabled: bool) -> (r: LiquidityMakerConfig)
        ensures
            r == (LiquidityMakerConfig { trading_enabled: enabled, ..self }),
    {
        LiquidityMakerConfig { trading_enabled: enabled, ..self }
    }

    pub fn with_lightpool_client_id(self, client_id: String) -> (r: LiquidityMakerConfig)
        ensures
            r == (LiquidityMakerConfig { lightpool_client_id: client_id, ..self }),
    {
        LiquidityMakerConfig { lightpool_client_id: client_id, ..self }
    }

    /// At least one delta makes a batch.
    pub fn with_reconcile_delta_batch_size(self, size: u64) -> (r: LiquidityMakerConfig)
        ensures
            r == (LiquidityMakerConfig {
                reconcile_delta_batch_size: if size == 0 {
                    1
                } else {
                    size
                },
                ..self
            }),
    {
        let reconcile_delta_batch_size: u64 = if size == 0 {
            1
        } else {
            size
        };
        LiquidityMakerConfig { reconcile_delta_batch_size, ..self }
    }
}

} // verus!
