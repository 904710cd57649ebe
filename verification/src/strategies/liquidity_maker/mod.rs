//! Dual-venue liquidity maker: mirrors Polymarket depth onto LightPool with its own orders.

pub mod bootstrap;
pub mod config;
pub mod levels;
pub mod markets;
pub mod mirror;
pub mod strategy;
pub mod sync;
