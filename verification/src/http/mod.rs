//! clob-index over HTTP: resources, requests and plans.

pub mod bootstrap;
pub mod clob_index;
pub mod models;
