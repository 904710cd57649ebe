//! Currencies of LightPool accounts and instruments.

use nautilus_model::enums::CurrencyType;
use vstd::prelude::*;

use crate::common::consts::DEFAULT_COLLATERAL_CURRENCY;
use crate::config;
use crate::config::Environment;
use crate::text;

verus! {

/// A currency code and its decimal places.
#[derive(Debug)]
pub struct Currency {
    pub code: String,
    pub precision: u8,
}

impl Clone for Currency {
    fn clone(&self) -> (r: Currency)
        ensures
            r == *self,
    {
        Currency { code: self.code.clone(), precision: self.precision }
    }
}

/// Decimal places of a currency that is not known yet.
pub const NEW_CURRENCY_PRECISION: u8 = 6;

/// The collateral currency code that the environment names.
pub open spec fn collateral_code(env: Environment) -> Seq<char> {
    config::nonempty_or(env.collateral_currency, DEFAULT_COLLATERAL_CURRENCY@)
}

/// Collateral currency code for LightPool accounts and instruments.
pub fn collateral_currency_code(env: &Environment) -> (r: String)
    ensures
        r@ == collateral_code(*env),
{
    match config::nonempty_env(&env.collateral_currency) {
        Some(code) => code,
        None => DEFAULT_COLLATERAL_CURRENCY.to_owned(),
    }
}

/// `nautilus_model::types::Currency::try_from_str`: the decimal places of a registered currency.
///
/// Reads a registry that the process fills, so nothing is said of the result.
#[verifier::external_body]
fn registered_precision(code: &str) -> (r: Option<u8>) {
    nautilus_model::types::Currency::try_from_str(code).map(|currency| currency.precision)
}

/// `nautilus_model::types::Currency::register` of a new crypto currency, where none is registered
/// under its code yet.
///
/// Changes a registry of the process, and fails only where its lock is poisoned.
#[verifier::external_body]
fn register_outside(code: &str, precision: u8) -> (r: bool)
    requires
        text::trimmed(code@).len() > 0,
        precision <= 9,
{
    nautilus_model::types::Currency::register(
        nautilus_model::types::Currency::new(code, precision, 0, code, CurrencyType::Crypto),
        false,
    ).is_ok()
}

/// The currency of a code: with the places it is registered with, or six.
pub fn currency_with(code: &str, registered: Option<u8>) -> (r: Currency)
    ensures
        r.code@ == code@,
        r.precision == match registered {
            Some(precision) => precision,
            None => NEW_CURRENCY_PRECISION,
        },
{
    let precision: u8 = match registered {
        Some(precision) => precision,
        None => NEW_CURRENCY_PRECISION,
    };
    Currency { code: code.to_owned(), precision }
}

/// Register a crypto currency code for portfolio accounting.
///
/// The decimal places are those under which the code is registered, which no contract can say;
/// a code that is not registered is registered with six.
pub fn register_currency(code: &str) -> (r: Currency)
    requires
        text::trimmed(code@).len() > 0,
    ensures
        r.code@ == code@,
{
    let registered: Option<u8> = registered_precision(code);
    if registered.is_none() {
        let _ = register_outside(code, NEW_CURRENCY_PRECISION);
    }
    currency_with(code, registered)
}

/// Returns the LightPool collateral currency, registering it if needed.
pub fn collateral_currency(env: &Environment) -> (r: Currency)
    ensures
        r.code@ == collateral_code(*env),
{
    let code: String = collateral_currency_code(env);
    proof {
        lemma_collateral_code(*env);
    }
    register_currency(code.as_str())
}

/// The collateral code is never blank.
pub proof fn lemma_collateral_code(env: Environment)
    ensures
        text::trimmed(collateral_code(env)).len() > 0,
{
    reveal_strlit("USDT");
    let default = DEFAULT_COLLATERAL_CURRENCY@;
    assert(text::trim_start(default) == default);
    assert(text::trim_end(default) == default);
    if config::nonempty(env.collateral_currency) is Some {
        text::lemma_trim_twice(env.collateral_currency->Some_0@);
    }
}

} // verus!
