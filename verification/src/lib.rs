//! LightPool trading bot core: order book mirroring, order life cycle and market bootstrap rules.

pub mod collections;
pub mod common;
pub mod config;
pub mod data;
pub mod decimal;
pub mod execution;
pub mod factories;
pub mod fixed;
pub mod http;
pub mod model;
pub mod params;
pub mod parse;
pub mod runners;
pub mod shared;
pub mod strategies;
pub mod text;
pub mod tools;
pub mod websocket;
