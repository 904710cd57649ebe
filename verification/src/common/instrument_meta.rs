//! What the parameters of an instrument say about its tokens and prices.

use vstd::prelude::*;

use crate::common::amounts;
use crate::common::amounts::PriceUnit;
use crate::model::{Instrument, InstrumentKind};
use crate::params;
use crate::params::{ParamValue, Params};
use crate::text;

verus! {

/// The parameters of a binary option or currency pair.
pub open spec fn info_of(instrument: Instrument) -> Option<Params> {
    match instrument.kind {
        InstrumentKind::BinaryOption => instrument.info,
        InstrumentKind::CurrencyPair => instrument.info,
        InstrumentKind::Other => None,
    }
}

/// The text without white space around it, where some is left.
pub open spec fn filled(text: Option<Seq<char>>) -> Option<Seq<char>> {
    match text {
        Some(text) => if text::trimmed(text).len() > 0 {
            Some(text::trimmed(text))
        } else {
            None
        },
        None => None,
    }
}

/// The text of the parameter `key`, or of the parameter `fallback` where `key` is not set.
pub open spec fn token_of(info: Option<Params>, key: Seq<char>, fallback: Seq<char>) -> Option<
    Seq<char>,
> {
    filled(
        params::value_text(
            match params::param(info, key) {
                Some(value) => Some(value),
                None => params::param(info, fallback),
            },
        ),
    )
}

/// Returns instrument `info` params for BinaryOption and CurrencyPair.
pub fn instrument_info(instrument: &Instrument) -> (r: Option<&Params>)
    ensures
        params::owned(r) == info_of(*instrument),
{
    match instrument.kind {
        InstrumentKind::Other => None,
        _ => match &instrument.info {
            Some(info) => Some(info),
            None => None,
        },
    }
}

/// Resolve book/order price unit from instrument info (`price_unit=decimal` → equity spot).
pub fn price_unit_for_instrument(instrument: &Instrument) -> (r: PriceUnit)
    ensures
        r == amounts::unit_of(info_of(*instrument)),
{
    PriceUnit::from_info(instrument_info(instrument))
}

fn token_from_info(info: Option<&Params>, key: &str, fallback: &str) -> (r: Option<String>)
    ensures
        params::string_view(r) == token_of(params::owned(info), key@, fallback@),
{
    match info {
        Some(entries) => {
            let value: Option<&ParamValue> = match entries.get(key) {
                Some(value) => Some(value),
                None => entries.get(fallback),
            };
            match value {
                Some(value) => match params::value_as_text(value) {
                    Some(text) => {
                        let trimmed: String = text::trim(text);
                        if trimmed.as_str().unicode_len() > 0 {
                            Some(trimmed)
                        } else {
                            None
                        }
                    },
                    None => None,
                },
                None => None,
            }
        },
        None => None,
    }
}

/// Quote / collateral token address for buy locks.
pub fn quote_token_from_info(info: Option<&Params>) -> (r: Option<String>)
    ensures
        params::string_view(r) == token_of(
            params::owned(info),
            "quote_token"@,
            "collateral_token"@,
        ),
{
    token_from_info(info, "quote_token", "collateral_token")
}

/// Base / outcome token address for sell locks.
pub fn base_token_from_info(info: Option<&Params>) -> (r: Option<String>)
    ensures
        params::string_view(r) == token_of(params::owned(info), "base_token"@, "outcome_token"@),
{
    token_from_info(info, "base_token", "outcome_token")
}

} // verus!
