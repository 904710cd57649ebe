//! Equity liquidity maker: Hyperliquid `xyz:SYMBOL` L2 to LightPool spot mirroring.

pub mod config;
pub mod strategy;
