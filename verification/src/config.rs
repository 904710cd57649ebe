//! Configuration of the LightPool clients, from values of the process environment.

use vstd::prelude::*;

use crate::common::consts::{
    DEFAULT_CLOB_INDEX_HTTP, DEFAULT_CLOB_INDEX_HTTP_CONNECT_TIMEOUT_SECS,
    DEFAULT_CLOB_INDEX_HTTP_TIMEOUT_SECS, DEFAULT_CLOB_INDEX_WS, DEFAULT_COLLATERAL_TOKEN,
};
use crate::common::instrument_meta;
use crate::params;
use crate::text;

verus! {

/// What the process environment and the wallet file hold, as they were read.
#[derive(Debug)]
pub struct Environment {
    /// `LIGHTPOOL_CLOB_INDEX_HTTP`.
    pub clob_index_http: Option<String>,
    /// `LIGHTPOOL_CLOB_INDEX_WS`.
    pub clob_index_ws: Option<String>,
    /// `LIGHTPOOL_CLOB_INDEX_HTTP_TIMEOUT_SECS`.
    pub http_timeout_secs: Option<String>,
    /// `LIGHTPOOL_CLOB_INDEX_HTTP_CONNECT_TIMEOUT_SECS`.
    pub http_connect_timeout_secs: Option<String>,
    /// `LIGHTPOOL_PRIVATE_KEY`.
    pub private_key: Option<String>,
    /// `LIGHTPOOL_COLLATERAL_TOKEN`.
    pub collateral_token: Option<String>,
    /// `LIGHTPOOL_COLLATERAL_CURRENCY`.
    pub collateral_currency: Option<String>,
    /// The private key of `~/.lightpool/wallet.json`.
    pub wallet_private_key: Option<String>,
}

/// The value without white space around it, where some is left.
pub open spec fn nonempty(value: Option<String>) -> Option<Seq<char>> {
    instrument_meta::filled(params::string_view(value))
}

/// The value, or a default where it is empty.
pub open spec fn nonempty_or(value: Option<String>, default: Seq<char>) -> Seq<char> {
    match nonempty(value) {
        Some(text) => text,
        None => default,
    }
}

/// The positive number of a value, or a default.
pub open spec fn positive_or(value: Option<String>, default: u64) -> u64 {
    match params::string_view(value) {
        Some(text) => match text::parsed_u64(text) {
            Some(n) => if n > 0 {
                n
            } else {
                default
            },
            None => default,
        },
        None => default,
    }
}

/// The value without white space around it, where some is left.
pub fn nonempty_env(value: &Option<String>) -> (r: Option<String>)
    ensures
        params::string_view(r) == nonempty(*value),
{
    match value {
        Some(value) => {
            let trimmed: String = text::trim(value.as_str());
            if trimmed.as_str().unicode_len() > 0 {
                Some(trimmed)
            } else {
                None
            }
        },
        None => None,
    }
}

fn nonempty_env_or(value: &Option<String>, default: &str) -> (r: String)
    ensures
        r@ == nonempty_or(*value, default@),
{
    match nonempty_env(value) {
        Some(text) => text,
        None => default.to_owned(),
    }
}

fn positive_env_or(value: &Option<String>, default: u64) -> (r: u64)
    ensures
        r == positive_or(*value, default),
{
    if let Some(value) = value {
        if let Some(n) = text::parse_u64(value.as_str()) {
            if n > 0 {
                return n;
            }
        }
    }
    default
}

/// The url has a port of a lightpool node.
pub open spec fn is_node_endpoint(url: Seq<char>) -> bool {
    text::has_part(url, ":26300"@) || text::has_part(url, ":26400"@)
}

/// The warning for a url that looks like a lightpool node: the bot talks to clob-index only.
pub fn reject_lightpool_node_endpoint(name: &str, url: &str) -> (r: Option<String>)
    ensures
        params::string_view(r) == if is_node_endpoint(url@) {
            Some(
                name@ + "="@ + url@
                    + " looks like a lightpool node endpoint; point it at lightpool-clob-index instead (default http://127.0.0.1:3002)"@,
            )
        } else {
            None
        },
{
    if text::contains(url, ":26300") || text::contains(url, ":26400") {
        let mut warning: String = name.to_owned();
        warning.append("=");
        warning.append(url);
        warning.append(
            " looks like a lightpool node endpoint; point it at lightpool-clob-index instead (default http://127.0.0.1:3002)",
        );
        Some(warning)
    } else {
        None
    }
}

pub fn clob_index_http_from_env(env: &Environment) -> (r: String)
    ensures
        r@ == nonempty_or(env.clob_index_http, DEFAULT_CLOB_INDEX_HTTP@),
{
    nonempty_env_or(&env.clob_index_http, DEFAULT_CLOB_INDEX_HTTP)
}

pub fn clob_index_ws_from_env(env: &Environment) -> (r: String)
    ensures
        r@ == nonempty_or(env.clob_index_ws, DEFAULT_CLOB_INDEX_WS@),
{
    nonempty_env_or(&env.clob_index_ws, DEFAULT_CLOB_INDEX_WS)
}

pub fn clob_index_http_timeout_secs_from_env(env: &Environment) -> (r: u64)
    ensures
        r == positive_or(env.http_timeout_secs, DEFAULT_CLOB_INDEX_HTTP_TIMEOUT_SECS),
        r > 0,
{
    positive_env_or(&env.http_timeout_secs, DEFAULT_CLOB_INDEX_HTTP_TIMEOUT_SECS)
}

pub fn clob_index_http_connect_timeout_secs_from_env(env: &Environment) -> (r: u64)
    ensures
        r == positive_or(
            env.http_connect_timeout_secs,
            DEFAULT_CLOB_INDEX_HTTP_CONNECT_TIMEOUT_SECS,
        ),
        r > 0,
{
    positive_env_or(&env.http_connect_timeout_secs, DEFAULT_CLOB_INDEX_HTTP_CONNECT_TIMEOUT_SECS)
}

pub fn private_key_from_env(env: &Environment) -> (r: Option<String>)
    ensures
        params::string_view(r) == nonempty(env.private_key),
{
    nonempty_env(&env.private_key)
}

/// The key of the wallet file.
pub fn private_key_from_cli_wallet(env: &Environment) -> (r: Option<String>)
    ensures
        params::string_view(r) == nonempty(env.wallet_private_key),
{
    nonempty_env(&env.wallet_private_key)
}

pub fn collateral_token_from_env(env: &Environment) -> (r: Option<String>)
    ensures
        params::string_view(r) == nonempty(env.collateral_token),
{
    nonempty_env(&env.collateral_token)
}

/// Resolve collateral token contract: `LIGHTPOOL_COLLATERAL_TOKEN` or [`DEFAULT_COLLATERAL_TOKEN`].
pub fn resolve_collateral_token(env: &Environment) -> (r: String)
    ensures
        r@ == nonempty_or(env.collateral_token, DEFAULT_COLLATERAL_TOKEN@),
{
    match collateral_token_from_env(env) {
        Some(token) => token,
        None => DEFAULT_COLLATERAL_TOKEN.to_owned(),
    }
}

/// No signing key was found.
#[derive(Clone, Copy, Debug, PartialEq, Eq, Structural)]
pub struct KeyNotFound;

impl KeyNotFound {
    /// The refusal in words.
    pub fn message(&self) -> (r: &'static str)
        ensures
            r@
                == "LightPool private key not found: set LIGHTPOOL_PRIVATE_KEY or create a wallet with lightpool-cli (~/.lightpool/wallet.json)"@,
    {
        "LightPool private key not found: set LIGHTPOOL_PRIVATE_KEY or create a wallet with lightpool-cli (~/.lightpool/wallet.json)"
    }
}

/// The signing key: that of the environment first, then that of the wallet file.
pub open spec fn signing_key(env: Environment) -> Option<Seq<char>> {
    match nonempty(env.private_key) {
        Some(key) => Some(key),
        None => nonempty(env.wallet_private_key),
    }
}

/// `r` is the key, or says that there is none.
pub open spec fn is_key(r: Result<String, KeyNotFound>, key: Option<Seq<char>>) -> bool {
    match key {
        Some(key) => r matches Ok(text) && text@ == key,
        None => r is Err,
    }
}

/// Resolve signing key: `LIGHTPOOL_PRIVATE_KEY` first, then `~/.lightpool/wallet.json`.
pub fn resolve_private_key(env: &Environment) -> (r: Result<String, KeyNotFound>)
    ensures
        is_key(r, signing_key(*env)),
        signing_key(*env) matches Some(key) ==> r is Ok && r->Ok_0@ == key,
        signing_key(*env) is None ==> r is Err,
{
    match private_key_from_env(env) {
        Some(key) => Ok(key),
        None => match private_key_from_cli_wallet(env) {
            Some(key) => Ok(key),
            None => Err(KeyNotFound),
        },
    }
}

/// A LightPool spot market of an equity symbol.
#[derive(Debug)]
pub struct SpotMarketBootstrap {
    pub symbol: String,
    pub spot_market: String,
    pub base_token: String,
    pub quote_token: String,
}

impl Clone for SpotMarketBootstrap {
    fn clone(&self) -> (r: SpotMarketBootstrap)
        ensures
            r == *self,
    {
        SpotMarketBootstrap {
            symbol: self.symbol.clone(),
            spot_market: self.spot_market.clone(),
            base_token: self.base_token.clone(),
            quote_token: self.quote_token.clone(),
        }
    }
}

#[derive(Debug)]
pub struct LightpoolDataClientConfig {
    pub clob_index_http_url: String,
    pub clob_index_ws_url: String,
    /// Market slugs to bootstrap from clob-index.
    pub market_slugs: Vec<String>,
    /// Default book depth for subscriptions and snapshots.
    pub book_depth: u32,
}

impl LightpoolDataClientConfig {
    /// The config for some market slugs, everything else from the environment.
    pub fn new(market_slugs: Vec<String>, env: &Environment) -> (r: LightpoolDataClientConfig)
        ensures
            r.clob_index_http_url@ == nonempty_or(env.clob_index_http, DEFAULT_CLOB_INDEX_HTTP@),
            r.clob_index_ws_url@ == nonempty_or(env.clob_index_ws, DEFAULT_CLOB_INDEX_WS@),
            r.market_slugs == market_slugs,
            r.book_depth == 10,
    {
        LightpoolDataClientConfig {
            clob_index_http_url: clob_index_http_from_env(env),
            clob_index_ws_url: clob_index_ws_from_env(env),
            market_slugs,
            book_depth: 10,
        }
    }

    pub fn with_book_depth(self, depth: u32) -> (r: LightpoolDataClientConfig)
        ensures
            r == (LightpoolDataClientConfig { book_depth: depth, ..self }),
    {
        LightpoolDataClientConfig { book_depth: depth, ..self }
    }
}

#[derive(Debug)]
pub struct LightpoolExecClientConfig {
    pub clob_index_http_url: String,
    pub private_key: Option<String>,
    /// Market slugs used to resolve collateral and outcome token addresses before cache is warm.
    pub market_slugs: Vec<String>,
}

impl LightpoolExecClientConfig {
    /// The config for some market slugs, everything else from the environment.
    pub fn new(market_slugs: Vec<String>, env: &Environment) -> (r: LightpoolExecClientConfig)
        ensures
            r.clob_index_http_url@ == nonempty_or(env.clob_index_http, DEFAULT_CLOB_INDEX_HTTP@),
            params::string_view(r.private_key) == nonempty(env.private_key),
            r.market_slugs == market_slugs,
    {
        LightpoolExecClientConfig {
            clob_index_http_url: clob_index_http_from_env(env),
            private_key: private_key_from_env(env),
            market_slugs,
        }
    }

    /// The signing key: that of the config, then that of the environment, then the wallet file's.
    pub fn resolved_private_key(&self, env: &Environment) -> (r: Result<String, KeyNotFound>)
        ensures
            is_key(
                r,
                match nonempty(self.private_key) {
                    Some(key) => Some(key),
                    None => signing_key(*env),
                },
            ),
            (self.private_key matches Some(key) && text::trimmed(key@).len() > 0) ==> r is Ok
                && r->Ok_0@ == text::trimmed(self.private_key->Some_0@),
            self.private_key is None || text::trimmed(self.private_key->Some_0@).len() == 0
                ==> match signing_key(*env) {
                Some(key) => r is Ok && r->Ok_0@ == key,
                None => r is Err,
            },
    {
        match nonempty_env(&self.private_key) {
            Some(key) => Ok(key),
            None => resolve_private_key(env),
        }
    }
}

/// A setting counts without white space around it, and not at all where it is blank.
pub proof fn law_blank_settings_do_not_count(value: Option<String>, default: Seq<char>)
    ensures
        value is None ==> nonempty_or(value, default) == default,
        value matches Some(text) ==> nonempty_or(value, default) == if text::trimmed(text@).len()
            > 0 {
            text::trimmed(text@)
        } else {
            default
        },
{
}

/// A number of seconds counts where it is positive.
pub proof fn law_positive_settings_count(value: Option<String>, default: u64)
    ensures
        (value matches Some(text) && (text::parsed_u64(text@) matches Some(n) && n > 0))
            ==> Some(positive_or(value, default)) == text::parsed_u64(value->Some_0@),
        value is None ==> positive_or(value, default) == default,
        (value matches Some(text) && text::parsed_u64(text@) is None) ==> positive_or(value, default)
            == default,
        (value matches Some(text) && text::parsed_u64(text@) == Some(0u64)) ==> positive_or(
            value,
            default,
        ) == default,
{
}

/// The key of the environment goes ahead of that of the wallet, which counts where the environment
/// has none.
pub proof fn law_signing_keys(env: Environment)
    ensures
        (env.private_key matches Some(key) && text::trimmed(key@).len() > 0) ==> signing_key(env)
            == Some(text::trimmed(env.private_key->Some_0@)),
        env.private_key is None && (env.wallet_private_key matches Some(key) && text::trimmed(
            key@,
        ).len() > 0) ==> signing_key(env) == Some(text::trimmed(env.wallet_private_key->Some_0@)),
        env.private_key is None && env.wallet_private_key is None ==> signing_key(env) is None,
{
}

/// An endpoint on a port of a node is told apart, wherever in the text the port stands.
pub proof fn law_node_ports_are_found(before: Seq<char>, after: Seq<char>)
    ensures
        is_node_endpoint(before + ":26300"@ + after),
        is_node_endpoint(before + ":26400"@ + after),
{
    text::lemma_part_in_the_middle(before, ":26300"@, after);
    text::lemma_part_in_the_middle(before, ":26400"@, after);
}

/// A blank key of the environment counts as none: then the key of the wallet is taken.
pub proof fn law_blank_keys_do_not_count(env: Environment)
    ensures
        (env.private_key matches Some(key) && text::trimmed(key@).len() == 0) ==> signing_key(env)
            == nonempty(env.wallet_private_key),
        (env.private_key is None || text::trimmed(env.private_key->Some_0@).len() == 0) && (
        env.wallet_private_key matches Some(key) && text::trimmed(key@).len() == 0) ==> signing_key(
            env,
        ) is None,
{
}

} // verus!
