//! What the clients are registered as.

use vstd::prelude::*;

use crate::common::consts::LIGHTPOOL;
use crate::config;
use crate::config::{Environment, LightpoolDataClientConfig, LightpoolExecClientConfig};
use crate::data::LightpoolDataClient;
use crate::execution::client::LightpoolExecutionClient;
use crate::model::{InstrumentId, Order};
use crate::params;

verus! {

#[derive(Clone, Copy, Debug)]
pub struct LightpoolDataClientFactory;

impl LightpoolDataClientFactory {
    pub fn name(&self) -> (r: &'static str)
        ensures
            r@ == LIGHTPOOL@,
    {
        LIGHTPOOL
    }

    pub fn config_type(&self) -> (r: &'static str)
        ensures
            r@ == "LightpoolDataClientConfig"@,
    {
        "LightpoolDataClientConfig"
    }

    /// A new data client.
    pub fn create(&self, name: &str, config: LightpoolDataClientConfig) -> (r: LightpoolDataClient)
        ensures
            r.client_id@ == name@,
            r.config == config,
            !r.connected,
            r.wf(),
            r.instrument_by_spot_market@ == Map::<Seq<char>, InstrumentId>::empty(),
            r.spot_market_by_instrument@ == Map::<(Seq<char>, Seq<char>), String>::empty(),
            r.active_delta_subs@ == Set::<(Seq<char>, Seq<char>)>::empty(),
            r.active_quote_subs@ == Set::<(Seq<char>, Seq<char>)>::empty(),
    {
        LightpoolDataClient::new(name, config)
    }
}

#[derive(Clone, Copy, Debug)]
pub struct LightpoolExecutionClientFactory;

impl LightpoolExecutionClientFactory {
    pub fn name(&self) -> (r: &'static str)
        ensures
            r@ == LIGHTPOOL@,
    {
        LIGHTPOOL
    }

    pub fn config_type(&self) -> (r: &'static str)
        ensures
            r@ == "LightpoolExecClientConfig"@,
    {
        "LightpoolExecClientConfig"
    }

    /// A new execution client.
    pub fn create(&self, config: LightpoolExecClientConfig, env: &Environment) -> (r:
        LightpoolExecutionClient)
        ensures
            r.config == config,
            params::string_view(r.private_key) == match config::nonempty(config.private_key) {
                Some(key) => Some(key),
                None => config::signing_key(*env),
            },
            r.tracker.wf(),
            r.tracker.resting() == Map::<Seq<char>, Order>::empty(),
            r.tracker.cloids() == Map::<Seq<char>, Order>::empty(),
            !r.connected,
            !r.streaming,
    {
        LightpoolExecutionClient::new(config, env)
    }
}

} // verus!
