//! Requests to the clob-index HTTP API: where they go, and what their answers mean.

use vstd::prelude::*;

use crate::collections;
use crate::collections::InstrumentMap;
use crate::common::amounts;
use crate::common::amounts::AmountError;
use crate::common::balances;
use crate::common::consts::{DEFAULT_CLOB_INDEX_HTTP, DEFAULT_TICK_SIZE_RAW};
use crate::common::currency;
use crate::common::signer;
use crate::common::signer::KeyMaterial;
use crate::config;
use crate::config::{Environment, KeyNotFound};
use crate::decimal::Decimal;
use crate::fixed::{Price, Quantity, PRICE_RAW_MAX};
use crate::http::models::{Market, MarketsPage, SpotMarketInfo};
use crate::model::{
    Instrument, InstrumentId, InstrumentKind, OrderSide, OrderType, TimeInForce,
};
use crate::params;
use crate::params::Params;
use crate::parse;
use crate::parse::{BinaryOption, LightpoolOutcome, ParseError, ParseErrorView};
use crate::text;

verus! {

/// Markets on one page.
pub const PAGE_LIMIT: u32 = 100;

/// The url that `reqwest` builds of a base and query pairs, or the text of its error.
pub uninterp spec fn url_with_query(
    base: Seq<char>,
    pairs: Seq<(Seq<char>, Seq<char>)>,
) -> Result<Seq<char>, Seq<char>>;

/// A text or a refusal, as characters.
pub open spec fn url_view(r: Result<String, String>) -> Result<Seq<char>, Seq<char>> {
    match r {
        Ok(url) => Ok(url@),
        Err(cause) => Err(cause@),
    }
}

/// Names and values of query pairs.
pub open spec fn pair_views(pairs: Seq<(&str, String)>) -> Seq<(Seq<char>, Seq<char>)> {
    Seq::new(pairs.len(), |i: int| (pairs[i].0@, pairs[i].1@))
}

/// `reqwest::Url::parse_with_params`: reads the base and appends the pairs, percent-encoded.
///
/// The text, or that of the error, depends on base and pairs alone. Fails where the base is no
/// absolute url.
#[verifier::external_body]
fn query_outside(base: &str, pairs: &Vec<(&str, String)>) -> (r: Result<String, String>)
    ensures
        url_view(r) == url_with_query(base@, pair_views(pairs@)),
{
    match reqwest::Url::parse_with_params(base, pairs) {
        Ok(url) => Ok(url.to_string()),
        Err(e) => Err(e.to_string()),
    }
}

/// A failed request: the status line and what the answer says.
pub open spec fn refusal_text(status: Seq<char>, error: Option<Seq<char>>) -> Seq<char> {
    "clob-index HTTP "@ + status + ": "@ + match error {
        Some(error) => error,
        None => "unknown clob-index error"@,
    }
}

/// The error of an answer that is no success.
pub fn decode_error(status: &str, error: Option<String>) -> (r: String)
    ensures
        r@ == refusal_text(status@, params::string_view(error)),
{
    let mut r: String = text::append("clob-index HTTP ", status);
    r.append(": ");
    match error {
        Some(error) => {
            r.append(error.as_str());
        },
        None => {
            r.append("unknown clob-index error");
        },
    }
    r
}

/// What the answer to a query for one order means.
#[derive(Clone, Copy, Debug, PartialEq, Eq, Structural)]
pub enum QueryAnswer {
    /// There is no such order.
    Missing,
    /// The body holds the order.
    Found,
    /// The body says what went wrong.
    Refused,
}

/// The meaning of a status code, for a query that may find nothing.
pub fn query_answer(status: u16) -> (r: QueryAnswer)
    ensures
        r == if status == 404 {
            QueryAnswer::Missing
        } else if 200 <= status < 300 {
            QueryAnswer::Found
        } else {
            QueryAnswer::Refused
        },
{
    if status == 404 {
        QueryAnswer::Missing
    } else if 200 <= status && status < 300 {
        QueryAnswer::Found
    } else {
        QueryAnswer::Refused
    }
}

/// Why a client refused a call.
#[derive(Debug)]
pub enum ClientError {
    SignerNotSet,
    /// The instrument's id, as text.
    InstrumentNotFound(String),
    /// Why the url of the client is no url.
    InvalidUrl(String),
}

impl ClientError {
    pub open spec fn text(self) -> Seq<char> {
        match self {
            ClientError::SignerNotSet => "signer not set; use from_env() or set_signer()"@,
            ClientError::InstrumentNotFound(id) => "instrument not found in cache: "@ + id@
                + ". Ensure instruments are loaded."@,
            ClientError::InvalidUrl(cause) => cause@,
        }
    }

    /// The refusal in words.
    pub fn message(&self) -> (r: String)
        ensures
            r@ == self.text(),
    {
        match self {
            ClientError::SignerNotSet => "signer not set; use from_env() or set_signer()".to_owned(),
            ClientError::InstrumentNotFound(id) => {
                let mut r: String = text::append("instrument not found in cache: ", id.as_str());
                r.append(". Ensure instruments are loaded.");
                r
            },
            ClientError::InvalidUrl(cause) => cause.clone(),
        }
    }
}

/// `r` is the text `url`, or says why there is none.
pub open spec fn is_url(r: Result<String, ClientError>, url: Result<Seq<char>, Seq<char>>) -> bool {
    match url {
        Ok(url) => r matches Ok(text) && text@ == url,
        Err(cause) => r matches Err(ClientError::InvalidUrl(text)) && text@ == cause,
    }
}

/// Where requests go, which instruments are known, and who signs.
#[derive(Debug)]
pub struct ClobIndexHttpClient {
    pub base_url: String,
    /// Address of the signer, where there is one.
    pub user_address: Option<String>,
    pub instruments: InstrumentMap<Instrument>,
}

/// The ids of a list of instruments, each with its instrument, put into a map in order.
pub open spec fn with_instruments(
    map: Map<(Seq<char>, Seq<char>), Instrument>,
    instruments: Seq<Instrument>,
) -> Map<(Seq<char>, Seq<char>), Instrument>
    decreases instruments.len(),
{
    if instruments.len() == 0 {
        map
    } else {
        with_instruments(map, instruments.drop_last()).insert(
            instruments.last().id@,
            instruments.last(),
        )
    }
}

impl ClobIndexHttpClient {
    /// A client without signer and instruments. Slashes at the end of the url are left out.
    pub fn new(base_url: &str) -> (r: ClobIndexHttpClient)
        ensures
            r.base_url@ == text::trim_end_char(base_url@, '/'),
            r.user_address is None,
            r.instruments@ == Map::<(Seq<char>, Seq<char>), Instrument>::empty(),
    {
        ClobIndexHttpClient {
            base_url: text::trim_end_matches(base_url, '/'),
            user_address: None,
            instruments: InstrumentMap::new(),
        }
    }

    /// A client for the endpoint of the environment, with the key whose address it is to sign for.
    pub fn from_env(env: &Environment) -> (r: Result<
        (ClobIndexHttpClient, KeyMaterial),
        KeyNotFound,
    >)
        ensures
            match config::signing_key(*env) {
                Some(key) => r matches Ok((client, material)) && client.base_url@
                    == text::trim_end_char(
                    config::nonempty_or(env.clob_index_http, DEFAULT_CLOB_INDEX_HTTP@),
                    '/',
                ) && client.user_address is None && client.instruments@ == Map::<
                    (Seq<char>, Seq<char>),
                    Instrument,
                >::empty() && signer::is_material(material, key),
                None => r is Err,
            },
    {
        let client: ClobIndexHttpClient = ClobIndexHttpClient::new(
            config::clob_index_http_from_env(env).as_str(),
        );
        match config::resolve_private_key(env) {
            Ok(key) => Ok((client, signer::signer_from_private_key(key.as_str()))),
            Err(missing) => Err(missing),
        }
    }

    pub fn set_signer(&mut self, address: String)
        ensures
            final(self).user_address == Some(address),
            final(self).base_url == old(self).base_url,
            final(self).instruments == old(self).instruments,
    {
        self.user_address = Some(address);
    }

    pub fn with_signer(self, address: String) -> (r: ClobIndexHttpClient)
        ensures
            r.user_address == Some(address),
            r.base_url == self.base_url,
            r.instruments == self.instruments,
    {
        ClobIndexHttpClient {
            base_url: self.base_url,
            user_address: Some(address),
            instruments: self.instruments,
        }
    }

    pub fn get_user_address(&self) -> (r: Result<String, ClientError>)
        ensures
            match self.user_address {
                Some(address) => r == Ok::<String, ClientError>(address),
                None => r == Err::<String, ClientError>(ClientError::SignerNotSet),
            },
    {
        match &self.user_address {
            Some(address) => Ok(address.clone()),
            None => Err(ClientError::SignerNotSet),
        }
    }

    pub fn cache_instrument(&mut self, instrument: Instrument)
        ensures
            final(self).instruments@ == old(self).instruments@.insert(instrument.id@, instrument),
            final(self).base_url == old(self).base_url,
            final(self).user_address == old(self).user_address,
    {
        let id: InstrumentId = instrument.id.clone();
        let _ = self.instruments.insert(&id, instrument);
    }

    /// Of two instruments with one id the later one stays.
    pub fn cache_instruments(&mut self, instruments: Vec<Instrument>)
        ensures
            final(self).instruments@ == with_instruments(old(self).instruments@, instruments@),
            final(self).base_url == old(self).base_url,
            final(self).user_address == old(self).user_address,
    {
        let ghost all = instruments@;
        let mut taken: Vec<Instrument> = collections::reversed(instruments);
        assert(taken@.reverse() =~= all);
        while taken.len() > 0
            invariant
                taken@.len() <= all.len(),
                taken@.reverse() == all.skip(all.len() - taken@.len()),
                self.instruments@ == with_instruments(
                    old(self).instruments@,
                    all.take(all.len() - taken@.len()),
                ),
                self.base_url == old(self).base_url,
                self.user_address == old(self).user_address,
            decreases taken.len(),
        {
            let ghost n = all.len() - taken@.len();
            let ghost before = taken@;
            if let Some(instrument) = taken.pop() {
                proof {
                    assert(before.reverse()[0] == instrument);
                    assert(all[n] == instrument);
                    assert(all.take(n + 1).drop_last() =~= all.take(n));
                    assert(taken@.reverse() =~= all.skip(n + 1)) by {
                        assert(before.reverse().skip(1) =~= all.skip(n).skip(1));
                        assert(taken@.reverse() =~= before.reverse().skip(1));
                    }
                }
                self.cache_instrument(instrument);
            }
        }
        assert(all.take(all.len() as int) =~= all);
    }

    pub fn get_instrument(&self, instrument_id: &InstrumentId) -> (r: Option<&Instrument>)
        ensures
            params::owned(r) == collections::entry(self.instruments@, instrument_id@),
    {
        self.instruments.get(instrument_id)
    }

    /// `{base}/api/markets/slug/{slug}`.
    pub fn market_by_slug_url(&self, slug: &str) -> (r: String)
        ensures
            r@ == self.base_url@ + "/api/markets/slug/"@ + slug@,
    {
        let mut r: String = text::append(self.base_url.as_str(), "/api/markets/slug/");
        r.append(slug);
        r
    }

    /// `{base}/api/spot/{spot_market}/book?depth={depth}`.
    pub fn book_snapshot_url(&self, spot_market: &str, depth: u32) -> (r: String)
        ensures
            r@ == self.base_url@ + "/api/spot/"@ + spot_market@ + "/book?depth="@
                + text::decimal_text(depth as nat),
    {
        let mut r: String = text::append(self.base_url.as_str(), "/api/spot/");
        r.append(spot_market);
        r.append("/book?depth=");
        r.append(text::u64_text(depth as u64).as_str());
        r
    }

    /// `{base}/api/spot/{spot_market}/info` of the zero account.
    pub fn spot_info_url(&self, spot_market: &str) -> (r: String)
        ensures
            r@ == self.base_url@ + "/api/spot/"@ + spot_market@
                + "/info?account=0x0000000000000000000000000000000000000000"@,
    {
        let mut r: String = text::append(self.base_url.as_str(), "/api/spot/");
        r.append(spot_market);
        r.append("/info?account=0x0000000000000000000000000000000000000000");
        r
    }

    /// `{base}/api/accounts/{address}/balances`.
    pub fn balances_url(&self, address: &str) -> (r: String)
        ensures
            r@ == self.base_url@ + "/api/accounts/"@ + text::trimmed(address@) + "/balances"@,
    {
        let mut r: String = text::append(self.base_url.as_str(), "/api/accounts/");
        r.append(text::trim(address).as_str());
        r.append("/balances");
        r
    }

    /// `{base}/api/tx/submit`.
    pub fn submit_url(&self) -> (r: String)
        ensures
            r@ == self.base_url@ + "/api/tx/submit"@,
    {
        text::append(self.base_url.as_str(), "/api/tx/submit")
    }

    /// `{base}/api/markets?slugs={slugs}&limit={n}`. No slugs need no request.
    pub fn markets_by_slugs_url(&self, slugs: &Vec<String>) -> (r: Option<String>)
        ensures
            params::string_view(r) == if slugs@.len() == 0 {
                None
            } else {
                Some(
                    self.base_url@ + "/api/markets?slugs="@ + text::joined(
                        text::texts(slugs@),
                        ","@,
                    ) + "&limit="@ + text::decimal_text(slugs@.len()),
                )
            },
    {
        if slugs.len() == 0 {
            return None;
        }
        let mut r: String = text::append(self.base_url.as_str(), "/api/markets?slugs=");
        r.append(text::join(slugs, ",").as_str());
        r.append("&limit=");
        r.append(text::u64_text(slugs.len() as u64).as_str());
        Some(r)
    }

    /// `{base}/api/markets?market_addresses={addresses}&limit={n}`. No addresses need no request.
    pub fn markets_by_addresses_url(&self, addresses: &Vec<String>) -> (r: Option<String>)
        ensures
            params::string_view(r) == if addresses@.len() == 0 {
                None
            } else {
                Some(
                    self.base_url@ + "/api/markets?market_addresses="@ + text::joined(
                        text::texts(addresses@),
                        ","@,
                    ) + "&limit="@ + text::decimal_text(addresses@.len()),
                )
            },
    {
        if addresses.len() == 0 {
            return None;
        }
        let mut r: String = text::append(self.base_url.as_str(), "/api/markets?market_addresses=");
        r.append(text::join(addresses, ",").as_str());
        r.append("&limit=");
        r.append(text::u64_text(addresses.len() as u64).as_str());
        Some(r)
    }

    /// `{base}/api/markets?limit=100&offset={offset}`.
    pub fn markets_page_url(&self, pager: &MarketPager) -> (r: String)
        ensures
            r@ == self.base_url@ + "/api/markets?limit="@ + text::decimal_text(PAGE_LIMIT as nat)
                + "&offset="@ + text::decimal_text(pager.offset as nat),
    {
        let mut r: String = text::append(self.base_url.as_str(), "/api/markets?limit=");
        r.append(text::u64_text(PAGE_LIMIT as u64).as_str());
        r.append("&offset=");
        r.append(text::u64_text(pager.offset as u64).as_str());
        r
    }

    /// `{base}/api/orders` of a user.
    pub fn list_orders_url(&self, user_address: &str) -> (r: Result<String, ClientError>)
        ensures
            is_url(
                r,
                url_with_query(
                    self.base_url@ + "/api/orders"@,
                    seq![("user_address"@, text::trimmed(user_address@))],
                ),
            ),
    {
        let base: String = text::append(self.base_url.as_str(), "/api/orders");
        let mut pairs: Vec<(&str, String)> = Vec::new();
        pairs.push(("user_address", text::trim(user_address)));
        assert(pair_views(pairs@) =~= seq![("user_address"@, text::trimmed(user_address@))]);
        match query_outside(base.as_str(), &pairs) {
            Ok(url) => Ok(url),
            Err(cause) => Err(ClientError::InvalidUrl(cause)),
        }
    }

    /// `{base}/api/orders/query` by the order's id on chain.
    pub fn query_order_url(
        &self,
        spot_market: &str,
        chain_order_id: &str,
        user_address: Option<&str>,
    ) -> (r: Result<String, ClientError>)
        ensures
            is_url(
                r,
                url_with_query(
                    self.base_url@ + "/api/orders/query"@,
                    match params::text_view(user_address) {
                        Some(address) => seq![
                            ("spot_market"@, spot_market@),
                            ("chain_order_id"@, chain_order_id@),
                            ("user_address"@, address),
                        ],
                        None => seq![
                            ("spot_market"@, spot_market@),
                            ("chain_order_id"@, chain_order_id@),
                        ],
                    },
                ),
            ),
    {
        let base: String = text::append(self.base_url.as_str(), "/api/orders/query");
        let mut pairs: Vec<(&str, String)> = Vec::new();
        pairs.push(("spot_market", spot_market.to_owned()));
        pairs.push(("chain_order_id", chain_order_id.to_owned()));
        let ghost two = seq![("spot_market"@, spot_market@), ("chain_order_id"@, chain_order_id@)];
        assert(pair_views(pairs@) =~= two);
        if let Some(address) = user_address {
            pairs.push(("user_address", address.to_owned()));
            assert(pair_views(pairs@) =~= two.push(("user_address"@, address@)));
            assert(two.push(("user_address"@, address@)) =~= seq![
                ("spot_market"@, spot_market@),
                ("chain_order_id"@, chain_order_id@),
                ("user_address"@, address@),
            ]);
        }
        match query_outside(base.as_str(), &pairs) {
            Ok(url) => Ok(url),
            Err(cause) => Err(ClientError::InvalidUrl(cause)),
        }
    }

    /// `{base}/api/orders/query` by what an open order asks.
    pub fn query_open_order_match_url(
        &self,
        spot_market: &str,
        user_address: &str,
        side: &str,
        price: &str,
        size_raw: u64,
    ) -> (r: Result<String, ClientError>)
        ensures
            is_url(
                r,
                url_with_query(
                    self.base_url@ + "/api/orders/query"@,
                    seq![
                        ("spot_market"@, spot_market@),
                        ("user_address"@, user_address@),
                        ("side"@, side@),
                        ("price"@, price@),
                        ("size_raw"@, text::decimal_text(size_raw as nat)),
                    ],
                ),
            ),
    {
        let base: String = text::append(self.base_url.as_str(), "/api/orders/query");
        let mut pairs: Vec<(&str, String)> = Vec::new();
        pairs.push(("spot_market", spot_market.to_owned()));
        pairs.push(("user_address", user_address.to_owned()));
        pairs.push(("side", side.to_owned()));
        pairs.push(("price", price.to_owned()));
        pairs.push(("size_raw", text::u64_text(size_raw)));
        assert(pair_views(pairs@) =~= seq![
            ("spot_market"@, spot_market@),
            ("user_address"@, user_address@),
            ("side"@, side@),
            ("price"@, price@),
            ("size_raw"@, text::decimal_text(size_raw as nat)),
        ]);
        match query_outside(base.as_str(), &pairs) {
            Ok(url) => Ok(url),
            Err(cause) => Err(ClientError::InvalidUrl(cause)),
        }
    }

    /// `{base}/api/orders/{id}/{action}` of a user.
    fn order_action_url(&self, order_id: &str, action: &str, user_address: &str) -> (r: Result<
        String,
        ClientError,
    >)
        ensures
            is_url(
                r,
                url_with_query(
                    self.base_url@ + "/api/orders/"@ + order_id@ + action@,
                    seq![("user_address"@, text::trimmed(user_address@))],
                ),
            ),
    {
        let mut base: String = text::append(self.base_url.as_str(), "/api/orders/");
        base.append(order_id);
        base.append(action);
        let mut pairs: Vec<(&str, String)> = Vec::new();
        pairs.push(("user_address", text::trim(user_address)));
        assert(pair_views(pairs@) =~= seq![("user_address"@, text::trimmed(user_address@))]);
        match query_outside(base.as_str(), &pairs) {
            Ok(url) => Ok(url),
            Err(cause) => Err(ClientError::InvalidUrl(cause)),
        }
    }

    /// `{base}/api/orders/{id}/cancel-context` of a user.
    pub fn cancel_context_url(&self, order_id: &str, user_address: &str) -> (r: Result<
        String,
        ClientError,
    >)
        ensures
            is_url(
                r,
                url_with_query(
                    self.base_url@ + "/api/orders/"@ + order_id@ + "/cancel-context"@,
                    seq![("user_address"@, text::trimmed(user_address@))],
                ),
            ),
    {
        self.order_action_url(order_id, "/cancel-context", user_address)
    }

    /// `{base}/api/orders/{id}/cancelled` of a user.
    pub fn mark_order_cancelled_url(&self, order_id: &str, user_address: &str) -> (r: Result<
        String,
        ClientError,
    >)
        ensures
            is_url(
                r,
                url_with_query(
                    self.base_url@ + "/api/orders/"@ + order_id@ + "/cancelled"@,
                    seq![("user_address"@, text::trimmed(user_address@))],
                ),
            ),
    {
        self.order_action_url(order_id, "/cancelled", user_address)
    }
}

/// Collects markets page by page.
#[derive(Debug)]
pub struct MarketPager {
    pub markets: Vec<Market>,
    pub offset: u32,
    pub done: bool,
}

/// `a + b`, at most `u32::MAX`.
pub open spec fn capped_sum(a: u32, b: u32) -> u32 {
    if a + b <= u32::MAX {
        (a + b) as u32
    } else {
        u32::MAX
    }
}

impl MarketPager {
    pub fn new() -> (r: MarketPager)
        ensures
            r.markets@.len() == 0,
            r.offset == 0,
            !r.done,
    {
        MarketPager { markets: Vec::new(), offset: 0, done: false }
    }

    /// Takes a page. An empty or short page, or one that reaches the total, is the last.
    pub fn add_page(&mut self, page: MarketsPage)
        ensures
            final(self).markets@ == old(self).markets@ + page.markets@,
            final(self).offset == capped_sum(old(self).offset, page.markets@.len() as u32),
            old(self).offset + page.markets@.len() <= u32::MAX ==> final(self).offset
                == old(self).offset + page.markets@.len(),
            final(self).done == (page.markets@.len() == 0 || final(self).offset >= page.total
                || page.markets@.len() < PAGE_LIMIT),
    {
        let mut markets: Vec<Market> = page.markets;
        let batch_len: usize = markets.len();
        self.markets.append(&mut markets);
        let step: u32 = #[verifier::truncate]
        (batch_len as u32);
        self.offset = if self.offset <= u32::MAX - step {
            self.offset + step
        } else {
            u32::MAX
        };
        self.done = batch_len == 0 || self.offset as usize >= page.total || batch_len
            < PAGE_LIMIT as usize;
    }
}

/// The page of a list of markets at an offset.
pub open spec fn page_of(all: Seq<Market>, offset: int) -> Seq<Market> {
    if offset + PAGE_LIMIT <= all.len() {
        all.subrange(offset, offset + PAGE_LIMIT)
    } else {
        all.skip(offset)
    }
}

/// The pager after a page, as [`MarketPager::add_page`] leaves it.
pub open spec fn is_next_pager(before: MarketPager, page: MarketsPage, after: MarketPager) -> bool {
    &&& after.markets@ == before.markets@ + page.markets@
    &&& after.offset == capped_sum(before.offset, page.markets@.len() as u32)
    &&& after.done == (page.markets@.len() == 0 || after.offset >= page.total
        || page.markets@.len() < PAGE_LIMIT)
}

/// A pager that has the first markets of a list, and is handed the list's next page, either goes
/// on with more of its first markets or is done with all of them.
pub proof fn law_paging_collects_every_market(
    all: Seq<Market>,
    before: MarketPager,
    page: MarketsPage,
    after: MarketPager,
)
    requires
        all.len() <= u32::MAX,
        !before.done,
        before.offset <= all.len(),
        before.markets@ == all.take(before.offset as int),
        page.markets@ == page_of(all, before.offset as int),
        page.total == all.len(),
        is_next_pager(before, page, after),
    ensures
        after.offset <= all.len(),
        after.markets@ == all.take(after.offset as int),
        after.done ==> after.markets@ == all,
        !after.done ==> before.offset < after.offset < all.len(),
{
    let n = before.offset as int;
    let m = page.markets@.len() as int;
    assert(all.take(n) + page_of(all, n) =~= all.take(n + m));
    assert(all.take(all.len() as int) =~= all);
}

/// The tick size of a spot market: the default where it cannot be had or is no positive amount.
pub open spec fn tick_size_raw_of(info: Option<SpotMarketInfo>) -> u64 {
    match info {
        Some(info) => match amounts::parsed_amount(info.tick_size@) {
            Ok(raw) => if raw > 0 {
                raw
            } else {
                DEFAULT_TICK_SIZE_RAW
            },
            Err(_) => DEFAULT_TICK_SIZE_RAW,
        },
        None => DEFAULT_TICK_SIZE_RAW,
    }
}

/// The tick size of a spot market, `None` where its description could not be fetched.
pub fn resolve_tick_size_raw(info: Option<&SpotMarketInfo>) -> (r: u64)
    ensures
        r == tick_size_raw_of(params::owned(info)),
        r > 0,
        info is None ==> r == 1_000,
        forall|raw: u64|
            info is Some && info->Some_0.tick_size@ == #[trigger] amounts::token_text(raw as nat)
                && raw > 0 ==> r == raw,
{
    match info {
        Some(info) => match amounts::parse_token_amount_str(info.tick_size.as_str()) {
            Ok(raw) => if raw > 0 {
                raw
            } else {
                DEFAULT_TICK_SIZE_RAW
            },
            Err(_) => DEFAULT_TICK_SIZE_RAW,
        },
        None => DEFAULT_TICK_SIZE_RAW,
    }
}

/// None of the first `n` pairs of tick sizes is refused.
pub open spec fn ticks_pass(ticks: Seq<(u64, u64)>, n: int) -> bool {
    forall|j: int|
        0 <= j < n ==> !parse::tick_refused((#[trigger] ticks[j]).0) && !parse::tick_refused(
            ticks[j].1,
        )
}

/// Instruments can be made of all markets up to the first refused tick size.
pub open spec fn markets_fit(markets: Seq<Market>, ticks: Seq<(u64, u64)>) -> bool {
    forall|i: int|
        0 <= i < markets.len() && ticks_pass(ticks, i) ==> parse::market_fits(
            #[trigger] markets[i],
            ticks[i],
        )
}

/// Why the first refused tick size of some markets is refused, where one is.
pub open spec fn first_tick_refusal(ticks: Seq<(u64, u64)>) -> Option<ParseErrorView>
    decreases ticks.len(),
{
    if ticks.len() == 0 {
        None
    } else {
        match first_tick_refusal(ticks.drop_last()) {
            Some(e) => Some(e),
            None => match parse::tick_refusal(ticks.last().0) {
                Some(e) => Some(e),
                None => parse::tick_refusal(ticks.last().1),
            },
        }
    }
}

/// The instruments at `2 * i` and behind it are YES and NO of a market.
pub open spec fn is_pair_at(
    options: Seq<BinaryOption>,
    i: int,
    market: Market,
    ticks: (u64, u64),
    ts_init: u64,
) -> bool {
    &&& parse::is_outcome_of(
        options[2 * i],
        market,
        LightpoolOutcome::Yes,
        market.yes_spot_market@,
        ticks.0,
        ts_init,
    )
    &&& parse::is_outcome_of(
        options[2 * i + 1],
        market,
        LightpoolOutcome::No,
        market.no_spot_market@,
        ticks.1,
        ts_init,
    )
}

/// `options` are the instruments of `markets`: YES and NO of each, in order.
pub open spec fn are_instruments_of(
    options: Seq<BinaryOption>,
    markets: Seq<Market>,
    ticks: Seq<(u64, u64)>,
    ts_init: u64,
) -> bool {
    &&& options.len() == 2 * markets.len()
    &&& forall|i: int|
        0 <= i < markets.len() ==> #[trigger] is_pair_at(
            options,
            i,
            markets[i],
            ticks[i],
            ts_init,
        )
}

/// The instruments are priced in the collateral currency.
pub open spec fn in_collateral(options: Seq<BinaryOption>, env: Environment) -> bool {
    forall|i: int|
        0 <= i < options.len() ==> (#[trigger] options[i]).currency.code@
            == currency::collateral_code(env)
}

/// The instruments of some markets, with the tick sizes of their YES and NO spot markets.
///
/// A refused tick size ends the list: the markets behind it are not read.
pub fn instruments_for_markets(
    markets: &[Market],
    ticks: &[(u64, u64)],
    env: &Environment,
    ts_init: u64,
) -> (r: Result<Vec<BinaryOption>, ParseError>)
    requires
        ticks@.len() == markets@.len(),
        markets_fit(markets@, ticks@),
    ensures
        match first_tick_refusal(ticks@) {
            Some(e) => parse::viewed(r) == Err::<Vec<BinaryOption>, ParseErrorView>(e),
            None => r matches Ok(options) && are_instruments_of(
                options@,
                markets@,
                ticks@,
                ts_init,
            ) && in_collateral(options@, *env),
        },
{
    let mut options: Vec<BinaryOption> = Vec::new();
    let mut i: usize = 0;
    while i < markets.len()
        invariant
            i <= markets@.len(),
            ticks@.len() == markets@.len(),
            markets_fit(markets@, ticks@),
            ticks_pass(ticks@, i as int),
            first_tick_refusal(ticks@.take(i as int)) is None,
            are_instruments_of(options@, markets@.take(i as int), ticks@.take(i as int), ts_init),
            in_collateral(options@, *env),
        decreases markets@.len() - i,
    {
        let market: &Market = &markets[i];
        let (yes_tick, no_tick): (u64, u64) = ticks[i];
        assert(ticks@.take(i + 1).drop_last() =~= ticks@.take(i as int));
        match parse::instruments_for_market(market, yes_tick, no_tick, env, ts_init) {
            Ok(pair) => {
                let ghost before = options@;
                let mut pair: Vec<BinaryOption> = pair;
                let ghost both = pair@;
                options.append(&mut pair);
                proof {
                    let next = markets@.take(i + 1);
                    let next_ticks = ticks@.take(i + 1);
                    assert forall|k: int| 0 <= k < next.len() implies #[trigger] is_pair_at(
                        options@,
                        k,
                        next[k],
                        next_ticks[k],
                        ts_init,
                    ) by {
                        if k < i {
                            assert(is_pair_at(
                                before,
                                k,
                                markets@.take(i as int)[k],
                                ticks@.take(i as int)[k],
                                ts_init,
                            ));
                            assert(options@[2 * k] == before[2 * k]);
                            assert(options@[2 * k + 1] == before[2 * k + 1]);
                        } else {
                            assert(options@[2 * k] == both[0]);
                            assert(options@[2 * k + 1] == both[1]);
                        }
                    }
                }
            },
            Err(e) => {
                proof {
                    lemma_tick_refusal_stands(ticks@, i + 1);
                }
                return Err(e);
            },
        }
        i += 1;
    }
    assert(markets@.take(i as int) =~= markets@);
    assert(ticks@.take(i as int) =~= ticks@);
    Ok(options)
}

proof fn lemma_tick_refusal_stands(ticks: Seq<(u64, u64)>, n: int)
    requires
        0 <= n <= ticks.len(),
        first_tick_refusal(ticks.take(n)) is Some,
    ensures
        first_tick_refusal(ticks) == first_tick_refusal(ticks.take(n)),
    decreases ticks.len(),
{
    if n < ticks.len() {
        assert(ticks.drop_last().take(n) =~= ticks.take(n));
        lemma_tick_refusal_stands(ticks.drop_last(), n);
    } else {
        assert(ticks.take(n) =~= ticks);
    }
}

/// Why an order was refused before it was sent.
#[derive(Debug)]
pub enum OrderRefusal {
    Client(ClientError),
    UnsupportedSide(OrderSide),
    Amount(AmountError),
    ZeroSize,
    UnsupportedTimeInForce(TimeInForce),
    MissingPrice,
    UnsupportedType(OrderType),
}

impl OrderRefusal {
    pub open spec fn text(self) -> Seq<char> {
        match self {
            OrderRefusal::Client(error) => error.text(),
            OrderRefusal::UnsupportedSide(side) => "unsupported order side: "@ + side.label(),
            OrderRefusal::Amount(error) => error.text(),
            OrderRefusal::ZeroSize => "order size must be greater than 0"@,
            OrderRefusal::UnsupportedTimeInForce(tif) => "unsupported time in force: "@
                + tif.label(),
            OrderRefusal::MissingPrice => "limit orders require a price"@,
            OrderRefusal::UnsupportedType(kind) => "unsupported order type: "@ + kind.label(),
        }
    }

    /// The refusal in words.
    pub fn message(&self) -> (r: String)
        ensures
            r@ == self.text(),
    {
        match self {
            OrderRefusal::Client(error) => error.message(),
            OrderRefusal::UnsupportedSide(side) => text::append(
                "unsupported order side: ",
                side.name(),
            ),
            OrderRefusal::Amount(error) => error.message().to_owned(),
            OrderRefusal::ZeroSize => "order size must be greater than 0".to_owned(),
            OrderRefusal::UnsupportedTimeInForce(tif) => text::append(
                "unsupported time in force: ",
                tif.name(),
            ),
            OrderRefusal::MissingPrice => "limit orders require a price".to_owned(),
            OrderRefusal::UnsupportedType(kind) => text::append(
                "unsupported order type: ",
                kind.name(),
            ),
        }
    }
}

/// What an order asks of its spot market.
#[derive(Debug)]
pub struct OrderRequest {
    pub spot_market: String,
    pub side: OrderSide,
    /// Size in raw units.
    pub amount: u64,
    pub time_in_force: TimeInForce,
    /// Price in raw units, on the tick grid.
    pub limit_price: u64,
    /// Texts to read the locked token's contract from: the first that reads as one is used.
    pub token_candidates: Vec<String>,
}

/// The texts to read the locked token's contract from: for a buy the collateral token, or an empty
/// text, and then the spot market; for a sell the outcome token, or the spot market.
pub open spec fn token_texts(instrument: Instrument, side: OrderSide) -> Seq<Seq<char>> {
    let info = balances::option_info(instrument);
    if side == OrderSide::Buy {
        seq![
            match params::param_text(info, "collateral_token"@) {
                Some(token) => token,
                None => ""@,
            },
            instrument.raw_symbol@,
        ]
    } else {
        seq![
            match params::param_text(info, "outcome_token"@) {
                Some(token) => token,
                None => instrument.raw_symbol@,
            },
        ]
    }
}

/// `q` asks for what the caller asked for.
pub open spec fn is_request(
    q: OrderRequest,
    instrument: Instrument,
    side: OrderSide,
    amount: u64,
    time_in_force: TimeInForce,
    limit_price: u64,
) -> bool {
    &&& q.spot_market@ == instrument.raw_symbol@
    &&& q.side == side
    &&& q.amount == amount
    &&& q.time_in_force == time_in_force
    &&& q.limit_price == limit_price
    &&& text::texts(q.token_candidates@) == token_texts(instrument, side)
}

/// Why an order is refused, where it is.
pub open spec fn order_refusal(
    instrument: Instrument,
    side: OrderSide,
    order_type: OrderType,
    quantity: Quantity,
    time_in_force: TimeInForce,
    price: Option<Price>,
) -> Option<OrderRefusal> {
    let tick = amounts::tick_size_of(balances::option_info(instrument));
    if side == OrderSide::NoOrderSide {
        Some(OrderRefusal::UnsupportedSide(side))
    } else {
        match amounts::raw_amount(quantity.decimal()) {
            None => Some(OrderRefusal::Amount(AmountError::InvalidAmount)),
            Some(amount) => if amount == 0 {
                Some(OrderRefusal::ZeroSize)
            } else if order_type != OrderType::Limit {
                Some(OrderRefusal::UnsupportedType(order_type))
            } else if time_in_force != TimeInForce::Gtc && time_in_force != TimeInForce::Ioc
                && time_in_force != TimeInForce::Fok {
                Some(OrderRefusal::UnsupportedTimeInForce(time_in_force))
            } else {
                match price {
                    None => Some(OrderRefusal::MissingPrice),
                    Some(price) => match amounts::probability_price(price.decimal(), tick) {
                        Ok(_) => None,
                        Err(e) => Some(OrderRefusal::Amount(e)),
                    },
                }
            },
        }
    }
}

/// The texts to read the locked token's contract from.
pub fn token_address_for_side(instrument: &Instrument, side: OrderSide) -> (r: Vec<String>)
    ensures
        text::texts(r@) == token_texts(*instrument, side),
{
    let info: Option<&Params> = balances::option_params(instrument);
    let mut r: Vec<String> = Vec::new();
    if side == OrderSide::Buy {
        let collateral: String = match params::text_param(info, "collateral_token") {
            Some(token) => token.to_owned(),
            None => "".to_owned(),
        };
        r.push(collateral);
        r.push(instrument.raw_symbol.clone());
    } else {
        let outcome: String = match params::text_param(info, "outcome_token") {
            Some(token) => token.to_owned(),
            None => instrument.raw_symbol.clone(),
        };
        r.push(outcome);
    }
    assert(text::texts(r@) =~= token_texts(*instrument, side));
    r
}

/// What an order of an instrument asks of its spot market, or why it is refused.
pub fn plan_order(
    instrument: &Instrument,
    side: OrderSide,
    order_type: OrderType,
    quantity: Quantity,
    time_in_force: TimeInForce,
    price: Option<Price>,
) -> (r: Result<OrderRequest, OrderRefusal>)
    requires
        quantity.valid(),
        price matches Some(p) ==> p.valid(),
    ensures
        match order_refusal(*instrument, side, order_type, quantity, time_in_force, price) {
            Some(e) => r == Err::<OrderRequest, OrderRefusal>(e),
            None => r matches Ok(q) && is_request(
                q,
                *instrument,
                side,
                amounts::raw_amount(quantity.decimal())->Some_0,
                time_in_force,
                amounts::probability_price(
                    price->Some_0.decimal(),
                    amounts::tick_size_of(balances::option_info(*instrument)),
                )->Ok_0,
            ) && q.amount > 0 && q.limit_price > 0 && q.limit_price
                % amounts::tick_size_of(balances::option_info(*instrument)) == 0,
        },
        r matches Ok(q) ==> {
            let tick = amounts::tick_size_of(balances::option_info(*instrument));
            &&& order_type == OrderType::Limit
            &&& side == OrderSide::Buy || side == OrderSide::Sell
            &&& time_in_force == TimeInForce::Gtc || time_in_force == TimeInForce::Ioc
                || time_in_force == TimeInForce::Fok
            &&& price is Some
            &&& q.side == side
            &&& q.time_in_force == time_in_force
            &&& q.spot_market@ == instrument.raw_symbol@
            &&& q.amount > 0
            &&& -500 <= q.amount * 1_000 - quantity.raw <= 500
            &&& q.limit_price > 0 && q.limit_price % tick == 0
            &&& -(500 + 500 * tick) <= q.limit_price * 1_000 - price->Some_0.raw <= 500 + 500 * tick
            &&& price->Some_0.raw % 1_000 == 0 ==> -(500 * tick) < q.limit_price * 1_000
                - price->Some_0.raw <= 500 * tick
        },
        r matches Err(e) ==> {
            let tick = amounts::tick_size_of(balances::option_info(*instrument));
            match e {
                OrderRefusal::UnsupportedSide(s) => s == side && side == OrderSide::NoOrderSide,
                OrderRefusal::ZeroSize => quantity.raw <= 500,
                OrderRefusal::UnsupportedType(t) => t == order_type && order_type != OrderType::Limit,
                OrderRefusal::UnsupportedTimeInForce(t) => t == time_in_force && t != TimeInForce::Gtc
                    && t != TimeInForce::Ioc && t != TimeInForce::Fok,
                OrderRefusal::MissingPrice => price is None,
                OrderRefusal::Amount(AmountError::PriceOutOfRange) => price->Some_0.raw < 0
                    || price->Some_0.raw > 1_000_000_000,
                OrderRefusal::Amount(AmountError::PriceRoundsToZero) => price->Some_0.raw <= 500 + 500
                    * tick,
                OrderRefusal::Amount(_) => false,
                OrderRefusal::Client(_) => false,
            }
        },
{
    proof {
        amounts::lemma_quantity_units(quantity);
        if price is Some {
            amounts::lemma_price_units(price->Some_0);
        }
    }
    let tick_size: u64 = amounts::tick_size_from_instrument_info(balances::option_params(instrument));
    if side == OrderSide::NoOrderSide {
        return Err(OrderRefusal::UnsupportedSide(side));
    }
    let amount: u64 = match amounts::decimal_to_raw_amount(quantity.as_decimal()) {
        Ok(amount) => amount,
        Err(e) => {
            return Err(OrderRefusal::Amount(e));
        },
    };
    if amount == 0 {
        return Err(OrderRefusal::ZeroSize);
    }
    if order_type != OrderType::Limit {
        return Err(OrderRefusal::UnsupportedType(order_type));
    }
    match time_in_force {
        TimeInForce::Gtc | TimeInForce::Ioc | TimeInForce::Fok => {},
        _ => {
            return Err(OrderRefusal::UnsupportedTimeInForce(time_in_force));
        },
    }
    let price: Price = match price {
        Some(price) => price,
        None => {
            return Err(OrderRefusal::MissingPrice);
        },
    };
    let limit_price: u64 = match amounts::probability_to_limit_price(
        price.as_decimal(),
        tick_size,
    ) {
        Ok(limit_price) => limit_price,
        Err(e) => {
            return Err(OrderRefusal::Amount(e));
        },
    };
    Ok(
        OrderRequest {
            spot_market: instrument.raw_symbol.clone(),
            side,
            amount,
            time_in_force,
            limit_price,
            token_candidates: token_address_for_side(instrument, side),
        },
    )
}

/// `r` refuses for want of an instrument.
pub open spec fn not_found<T>(r: Result<T, OrderRefusal>, id: InstrumentId) -> bool {
    r matches Err(OrderRefusal::Client(ClientError::InstrumentNotFound(text))) && text@
        == id@.0.push('.') + id@.1
}

impl ClobIndexHttpClient {
    /// What an order asks of its spot market, by the cached instrument.
    pub fn submit_order(
        &self,
        instrument_id: &InstrumentId,
        side: OrderSide,
        order_type: OrderType,
        quantity: Quantity,
        time_in_force: TimeInForce,
        price: Option<Price>,
    ) -> (r: Result<OrderRequest, OrderRefusal>)
        requires
            quantity.valid(),
            price matches Some(p) ==> p.valid(),
        ensures
            if self.user_address is None {
                r == Err::<OrderRequest, OrderRefusal>(
                    OrderRefusal::Client(ClientError::SignerNotSet),
                )
            } else {
                match collections::entry(self.instruments@, instrument_id@) {
                    None => not_found(r, *instrument_id),
                    Some(instrument) => match order_refusal(
                        instrument,
                        side,
                        order_type,
                        quantity,
                        time_in_force,
                        price,
                    ) {
                        Some(e) => r == Err::<OrderRequest, OrderRefusal>(e),
                        None => r matches Ok(q) && is_request(
                            q,
                            instrument,
                            side,
                            amounts::raw_amount(quantity.decimal())->Some_0,
                            time_in_force,
                            amounts::probability_price(
                                price->Some_0.decimal(),
                                amounts::tick_size_of(balances::option_info(instrument)),
                            )->Ok_0,
                        ),
                    },
                }
            },
    {
        if self.user_address.is_none() {
            return Err(OrderRefusal::Client(ClientError::SignerNotSet));
        }
        match self.instruments.get(instrument_id) {
            Some(instrument) => plan_order(
                instrument,
                side,
                order_type,
                quantity,
                time_in_force,
                price,
            ),
            None => Err(
                OrderRefusal::Client(ClientError::InstrumentNotFound(instrument_id.text())),
            ),
        }
    }

    /// The spot market at which an order of an instrument is cancelled.
    pub fn cancel_order(&self, instrument_id: &InstrumentId) -> (r: Result<String, OrderRefusal>)
        ensures
            if self.user_address is None {
                r == Err::<String, OrderRefusal>(OrderRefusal::Client(ClientError::SignerNotSet))
            } else {
                match collections::entry(self.instruments@, instrument_id@) {
                    None => not_found(r, *instrument_id),
                    Some(instrument) => r == Ok::<String, OrderRefusal>(instrument.raw_symbol),
                }
            },
    {
        if self.user_address.is_none() {
            return Err(OrderRefusal::Client(ClientError::SignerNotSet));
        }
        match self.instruments.get(instrument_id) {
            Some(instrument) => Ok(instrument.raw_symbol.clone()),
            None => Err(
                OrderRefusal::Client(ClientError::InstrumentNotFound(instrument_id.text())),
            ),
        }
    }

    /// What minting complete sets (collateral to YES and NO) asks of a market.
    pub fn submit_mint_outcome(&self, market: &Market, amount: Decimal) -> (r: Result<
        SetRequest,
        SetRefusal,
    >)
        requires
            amount.valid(),
        ensures
            is_set_request(r, self.user_address is Some, *market, amounts::raw_amount(amount)),
            forall|raw: u64| #[trigger]
                amounts::is_decimal_of(amount, raw) && raw > 0 && self.user_address is Some ==> (
                r matches Ok(q) && q.amount == raw && q.market_address == market.market_address
                    && q.collateral_token == market.collateral_token && q.yes_token
                    == market.yes_token && q.no_token == market.no_token),
            self.user_address is None ==> r is Err,
    {
        self.plan_sets(market, amount)
    }

    /// What burning complete sets (YES and NO to collateral) asks of a market.
    pub fn submit_burn_outcome(&self, market: &Market, amount: Decimal) -> (r: Result<
        SetRequest,
        SetRefusal,
    >)
        requires
            amount.valid(),
        ensures
            is_set_request(r, self.user_address is Some, *market, amounts::raw_amount(amount)),
            forall|raw: u64| #[trigger]
                amounts::is_decimal_of(amount, raw) && raw > 0 && self.user_address is Some ==> (
                r matches Ok(q) && q.amount == raw && q.market_address == market.market_address
                    && q.collateral_token == market.collateral_token && q.yes_token
                    == market.yes_token && q.no_token == market.no_token),
            self.user_address is None ==> r is Err,
    {
        self.plan_sets(market, amount)
    }

    fn plan_sets(&self, market: &Market, amount: Decimal) -> (r: Result<SetRequest, SetRefusal>)
        requires
            amount.valid(),
        ensures
            is_set_request(r, self.user_address is Some, *market, amounts::raw_amount(amount)),
            forall|raw: u64| #[trigger]
                amounts::is_decimal_of(amount, raw) && raw > 0 && self.user_address is Some ==> (
                r matches Ok(q) && q.amount == raw && q.market_address == market.market_address
                    && q.collateral_token == market.collateral_token && q.yes_token
                    == market.yes_token && q.no_token == market.no_token),
            self.user_address is None ==> r is Err,
    {
        if self.user_address.is_none() {
            return Err(SetRefusal::SignerNotSet);
        }
        match amounts::decimal_to_raw_amount(amount) {
            Ok(raw) => if raw == 0 {
                Err(SetRefusal::ZeroAmount)
            } else {
                Ok(
                    SetRequest {
                        market_address: market.market_address.clone(),
                        amount: raw,
                        collateral_token: market.collateral_token.clone(),
                        yes_token: market.yes_token.clone(),
                        no_token: market.no_token.clone(),
                    },
                )
            },
            Err(_) => Err(SetRefusal::InvalidAmount),
        }
    }
}

/// What minting or burning complete sets asks of a market. Addresses are texts yet.
#[derive(Debug)]
pub struct SetRequest {
    pub market_address: String,
    /// Sets in raw units.
    pub amount: u64,
    pub collateral_token: String,
    pub yes_token: String,
    pub no_token: String,
}

/// Why minting or burning was refused before it was sent.
#[derive(Clone, Copy, Debug, PartialEq, Eq, Structural)]
pub enum SetRefusal {
    SignerNotSet,
    /// The amount is negative or too large.
    InvalidAmount,
    ZeroAmount,
}

/// `r` asks for `amount` sets of `market`, or refuses.
pub open spec fn is_set_request(
    r: Result<SetRequest, SetRefusal>,
    has_signer: bool,
    market: Market,
    amount: Option<u64>,
) -> bool {
    if !has_signer {
        r == Err::<SetRequest, SetRefusal>(SetRefusal::SignerNotSet)
    } else {
        match amount {
            None => r == Err::<SetRequest, SetRefusal>(SetRefusal::InvalidAmount),
            Some(raw) => if raw == 0 {
                r == Err::<SetRequest, SetRefusal>(SetRefusal::ZeroAmount)
            } else {
                r == Ok::<SetRequest, SetRefusal>(
                    SetRequest {
                        market_address: market.market_address,
                        amount: raw,
                        collateral_token: market.collateral_token,
                        yes_token: market.yes_token,
                        no_token: market.no_token,
                    },
                )
            },
        }
    }
}

/// The digest of a transaction that succeeded, or the failure of `action`.
pub fn transaction_result(action: &str, digest: String, success: bool, status: &str) -> (r: Result<
    String,
    String,
>)
    ensures
        success ==> r == Ok::<String, String>(digest),
        !success ==> r is Err && r->Err_0@ == action@ + " failed: "@ + status@,
{
    if success {
        Ok(digest)
    } else {
        let mut error: String = text::append(action, " failed: ");
        error.append(status);
        Err(error)
    }
}

/// Digest and order id of an order that was placed, or why it was not.
pub fn place_order_result(
    digest: String,
    success: bool,
    status: &str,
    order_id: Option<u64>,
) -> (r: Result<(String, u64), String>)
    ensures
        !success ==> r is Err && r->Err_0@ == "place_order"@ + " failed: "@ + status@,
        success && order_id is None ==> r is Err && r->Err_0@
            == "order_created event missing from receipt"@,
        success && order_id is Some ==> r == Ok::<(String, u64), String>(
            (digest, order_id->Some_0),
        ),
{
    match transaction_result("place_order", digest, success, status) {
        Ok(digest) => match order_id {
            Some(id) => Ok((digest, id)),
            None => Err("order_created event missing from receipt".to_owned()),
        },
        Err(e) => Err(e),
    }
}

/// The instruments of a list of markets: two for each, in order, YES ahead of NO, each on its own
/// spot market.
pub proof fn law_markets_give_pairs(
    options: Seq<BinaryOption>,
    markets: Seq<Market>,
    ticks: Seq<(u64, u64)>,
    ts_init: u64,
    i: int,
)
    requires
        are_instruments_of(options, markets, ticks, ts_init),
        0 <= i < markets.len(),
    ensures
        options.len() == markets.len() + markets.len(),
        options[2 * i].instrument.id@.0 == markets[i].slug@ + "-YES"@,
        options[2 * i].instrument.raw_symbol@ == markets[i].yes_spot_market@,
        options[2 * i + 1].instrument.id@.0 == markets[i].slug@ + "-NO"@,
        options[2 * i + 1].instrument.raw_symbol@ == markets[i].no_spot_market@,
{
    assert(is_pair_at(options, i, markets[i], ticks[i], ts_init));
}

/// A list of tick sizes is refused exactly where one of them is.
pub proof fn law_one_bad_tick_refuses(ticks: Seq<(u64, u64)>)
    ensures
        first_tick_refusal(ticks) is None <==> forall|i: int|
            0 <= i < ticks.len() ==> 0 < (#[trigger] ticks[i]).0 && ticks[i].0 * 1_000
                <= PRICE_RAW_MAX && 0 < ticks[i].1 && ticks[i].1 * 1_000 <= PRICE_RAW_MAX,
    decreases ticks.len(),
{
    if ticks.len() > 0 {
        let head = ticks.drop_last();
        law_one_bad_tick_refuses(head);
        let last = ticks.len() - 1;
        if first_tick_refusal(ticks) is None {
            assert forall|i: int| 0 <= i < ticks.len() implies 0 < (#[trigger] ticks[i]).0
                && ticks[i].0 * 1_000 <= PRICE_RAW_MAX && 0 < ticks[i].1 && ticks[i].1 * 1_000
                <= PRICE_RAW_MAX by {
                if i < last {
                    assert(head[i] == ticks[i]);
                }
            }
        } else if first_tick_refusal(head) is Some {
            let i = choose|i: int|
                0 <= i < head.len() && !(0 < (#[trigger] head[i]).0 && head[i].0 * 1_000
                    <= PRICE_RAW_MAX && 0 < head[i].1 && head[i].1 * 1_000 <= PRICE_RAW_MAX);
            assert(ticks[i] == head[i]);
        } else {
            assert(ticks[last] == ticks.last());
        }
    }
}

/// A cached instrument is found by its id, the last one of several with it, and no other id changes.
pub proof fn law_cached_instruments_are_found(
    map: Map<(Seq<char>, Seq<char>), Instrument>,
    instruments: Seq<Instrument>,
    id: (Seq<char>, Seq<char>),
)
    ensures
        (forall|i: int| 0 <= i < instruments.len() ==> (#[trigger] instruments[i]).id@ != id)
            ==> collections::entry(with_instruments(map, instruments), id) == collections::entry(
            map,
            id,
        ),
        forall|i: int|
            0 <= i < instruments.len() && (#[trigger] instruments[i]).id@ == id && (forall|j: int|
                i < j < instruments.len() ==> (#[trigger] instruments[j]).id@ != id)
                ==> collections::entry(with_instruments(map, instruments), id) == Some(
                instruments[i],
            ),
    decreases instruments.len(),
{
    if instruments.len() > 0 {
        let head = instruments.drop_last();
        law_cached_instruments_are_found(map, head, id);
        assert(instruments[instruments.len() - 1] == instruments.last());
        if forall|i: int| 0 <= i < instruments.len() ==> (#[trigger] instruments[i]).id@ != id {
            assert forall|i: int| 0 <= i < head.len() implies (#[trigger] head[i]).id@ != id by {
                assert(head[i] == instruments[i]);
            }
            assert(instruments.last().id@ != id);
        }
        assert forall|i: int|
            0 <= i < instruments.len() && (#[trigger] instruments[i]).id@ == id && (forall|j: int|
                i < j < instruments.len() ==> (#[trigger] instruments[j]).id@
                    != id) implies collections::entry(with_instruments(map, instruments), id)
            == Some(instruments[i]) by {
            if i < head.len() {
                assert(head[i] == instruments[i]);
                assert forall|j: int| i < j < head.len() implies (#[trigger] head[j]).id@ != id by {
                    assert(head[j] == instruments[j]);
                }
                assert(instruments[instruments.len() - 1].id@ != id);
            }
        }
    }
}

/// A buy locks the collateral token of its instrument, and falls back to the spot market. A sell
/// locks the outcome token, or the spot market without one.
pub proof fn law_tokens_of_sides(instrument: Instrument)
    requires
        instrument.kind == InstrumentKind::BinaryOption,
    ensures
        token_texts(instrument, OrderSide::Buy).len() == 2,
        token_texts(instrument, OrderSide::Buy)[1] == instrument.raw_symbol@,
        params::param_text(instrument.info, "collateral_token"@) matches Some(token) ==> token_texts(
            instrument,
            OrderSide::Buy,
        )[0] == token,
        token_texts(instrument, OrderSide::Sell).len() == 1,
        token_texts(instrument, OrderSide::Sell)[0] == match params::param_text(
            instrument.info,
            "outcome_token"@,
        ) {
            Some(token) => token,
            None => instrument.raw_symbol@,
        },
{
}

} // verus!
