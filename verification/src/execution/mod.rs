//! Order life cycle on LightPool: what becomes of commands and of the user stream.

pub mod client;
pub mod commands;
pub mod events;
pub mod tracking;
