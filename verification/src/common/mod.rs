//! Amounts, currencies, balances and other rules shared by data and execution.

pub mod amounts;
pub mod balances;
pub mod consts;
pub mod currency;
pub mod instrument_meta;
pub mod signer;
