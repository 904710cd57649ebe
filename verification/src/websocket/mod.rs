//! clob-index over WebSocket: messages, subscriptions and dispatch.

pub mod clob_index;
pub mod models;
