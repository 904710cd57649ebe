//! Strategies that mirror reference order books onto LightPool.

pub mod equity_liquidity_maker;
pub mod liquidity_maker;
