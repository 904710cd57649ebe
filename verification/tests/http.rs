use lightpool_bot::common::signer::KeyMaterial;
use lightpool_bot::config::Environment;
use lightpool_bot::decimal::Decimal;
use lightpool_bot::fixed::{Price, Quantity};
use lightpool_bot::http::bootstrap::{
    bootstrap_one_market, create_event_contract, created_event, plan_bootstrap,
    EventContractCreated, MarketWait,
};
use lightpool_bot::http::clob_index::{
    decode_error, instruments_for_markets, place_order_result, query_answer, resolve_tick_size_raw,
    token_address_for_side, transaction_result, ClientError, ClobIndexHttpClient, MarketPager,
    OrderRefusal, QueryAnswer, SetRefusal,
};
use lightpool_bot::http::models::{Market, MarketsPage, SpotMarketInfo};
use lightpool_bot::model::{
    Instrument, InstrumentId, InstrumentKind, OrderSide, OrderType, TimeInForce,
};
use lightpool_bot::params::{ParamValue, Params};

fn env() -> Environment {
    Environment {
        clob_index_http: None,
        clob_index_ws: None,
        http_timeout_secs: None,
        http_connect_timeout_secs: None,
        private_key: None,
        collateral_token: None,
        collateral_currency: None,
        wallet_private_key: None,
    }
}

fn decimal(text: &str) -> Decimal {
    match Decimal::parse(text) {
        Ok(value) => value,
        Err(_) => panic!("not a decimal: {text}"),
    }
}

fn market(slug: &str, address: &str) -> Market {
    Market {
        id: "m".to_string(),
        slug: slug.to_string(),
        question: "?".to_string(),
        icon_url: None,
        market_address: address.to_string(),
        collateral_token: "0xc0".to_string(),
        yes_token: "0x11".to_string(),
        no_token: "0x22".to_string(),
        yes_spot_market: "0x33".to_string(),
        no_spot_market: "0x44".to_string(),
        state: "open".to_string(),
        resolution_deadline: 1,
    }
}

fn instrument(raw_symbol: &str, collateral: Option<&str>, outcome: Option<&str>) -> Instrument {
    let mut info = Params::new();
    if let Some(token) = collateral {
        info.set("collateral_token", ParamValue::Text(token.to_string()));
    }
    if let Some(token) = outcome {
        info.set("outcome_token", ParamValue::Text(token.to_string()));
    }
    Instrument {
        id: InstrumentId { symbol: "rain-YES".to_string(), venue: "LIGHTPOOL".to_string() },
        raw_symbol: raw_symbol.to_string(),
        kind: InstrumentKind::BinaryOption,
        outcome: None,
        info: Some(info),
    }
}

fn signing_client() -> ClobIndexHttpClient {
    let mut client =
        ClobIndexHttpClient::new("http://index:3002//").with_signer("0xabc".to_string());
    client.cache_instrument(instrument("0x33", Some("0xc0"), Some("0x11")));
    client
}

fn quantity(raw: u64) -> Quantity {
    Quantity { raw, precision: 6 }
}

fn price(raw: i64) -> Option<Price> {
    Some(Price { raw, precision: 6 })
}

#[test]
fn clients_know_their_signer() {
    let mut client = ClobIndexHttpClient::new("http://index:3002//");
    assert_eq!(client.base_url, "http://index:3002");
    assert!(matches!(client.get_user_address(), Err(ClientError::SignerNotSet)));
    client.set_signer("0xabc".to_string());
    assert!(matches!(client.get_user_address(), Ok(address) if address == "0xabc"));
    assert_eq!(
        ClientError::SignerNotSet.message(),
        "signer not set; use from_env() or set_signer()"
    );
}

#[test]
fn clients_are_made_of_the_environment() {
    let mut env = env();
    assert!(ClobIndexHttpClient::from_env(&env).is_err());
    env.clob_index_http = Some("http://index:9/".to_string());
    env.private_key = Some("c2VjcmV0".to_string());
    match ClobIndexHttpClient::from_env(&env) {
        Ok((client, KeyMaterial::Base64(secret))) => {
            assert_eq!(client.base_url, "http://index:9");
            assert_eq!(secret, "c2VjcmV0");
        }
        other => panic!("{other:?}"),
    }
}

#[test]
fn the_later_instrument_stays() {
    let mut client = ClobIndexHttpClient::new("http://index");
    client.cache_instruments(vec![
        instrument("0x33", None, None),
        instrument("0x55", None, None),
    ]);
    let id = InstrumentId { symbol: "rain-YES".to_string(), venue: "LIGHTPOOL".to_string() };
    let found = client.get_instrument(&id).map(|found| found.raw_symbol.clone());
    assert_eq!(found, Some("0x55".to_string()));
    assert_eq!(client.instruments.len(), 1);
}

#[test]
fn plain_urls() {
    let client = ClobIndexHttpClient::new("http://index");
    assert_eq!(client.market_by_slug_url("rain"), "http://index/api/markets/slug/rain");
    assert_eq!(
        client.book_snapshot_url("0x33", 10),
        "http://index/api/spot/0x33/book?depth=10"
    );
    assert_eq!(
        client.spot_info_url("0x33"),
        "http://index/api/spot/0x33/info?account=0x0000000000000000000000000000000000000000"
    );
    assert_eq!(
        client.balances_url(" 0xabc "),
        "http://index/api/accounts/0xabc/balances"
    );
    assert_eq!(client.submit_url(), "http://index/api/tx/submit");
    assert_eq!(
        client.markets_page_url(&MarketPager::new()),
        "http://index/api/markets?limit=100&offset=0"
    );
}

#[test]
fn urls_of_lists() {
    let client = ClobIndexHttpClient::new("http://index");
    let names = vec!["a".to_string(), "b".to_string()];
    assert_eq!(
        client.markets_by_slugs_url(&names),
        Some("http://index/api/markets?slugs=a,b&limit=2".to_string())
    );
    assert_eq!(
        client.markets_by_addresses_url(&names),
        Some("http://index/api/markets?market_addresses=a,b&limit=2".to_string())
    );
    assert_eq!(client.markets_by_slugs_url(&Vec::new()), None);
    assert_eq!(client.markets_by_addresses_url(&Vec::new()), None);
}

#[test]
fn queries_are_percent_encoded() {
    let client = ClobIndexHttpClient::new("http://index");
    assert!(matches!(
        client.list_orders_url(" 0x a&b "),
        Ok(url) if url == "http://index/api/orders?user_address=0x+a%26b"
    ));
    assert!(matches!(
        client.query_order_url("0x33", "7", None),
        Ok(url) if url == "http://index/api/orders/query?spot_market=0x33&chain_order_id=7"
    ));
    assert!(matches!(
        client.query_order_url("0x33", "7", Some("0xabc")),
        Ok(url) if url
            == "http://index/api/orders/query?spot_market=0x33&chain_order_id=7&user_address=0xabc"
    ));
    assert!(matches!(
        client.query_open_order_match_url("0x33", "0xabc", "buy", "52.3", 9),
        Ok(url) if url == "http://index/api/orders/query?spot_market=0x33&user_address=0xabc\
                           &side=buy&price=52.3&size_raw=9"
    ));
    assert!(matches!(
        client.cancel_context_url("id", " 0xabc"),
        Ok(url) if url == "http://index/api/orders/id/cancel-context?user_address=0xabc"
    ));
    assert!(matches!(
        client.mark_order_cancelled_url("id", "0xabc"),
        Ok(url) if url == "http://index/api/orders/id/cancelled?user_address=0xabc"
    ));
}

#[test]
fn a_base_that_is_no_url_is_refused() {
    let client = ClobIndexHttpClient::new("index");
    match client.list_orders_url("0xabc") {
        Err(error) => assert_eq!(error.message(), "relative URL without a base"),
        Ok(url) => panic!("{url}"),
    }
}

#[test]
fn answers_are_told_apart() {
    assert_eq!(query_answer(404), QueryAnswer::Missing);
    assert_eq!(query_answer(204), QueryAnswer::Found);
    assert_eq!(query_answer(500), QueryAnswer::Refused);
    assert_eq!(
        decode_error("500 Internal Server Error", Some("broken".to_string())),
        "clob-index HTTP 500 Internal Server Error: broken"
    );
    assert_eq!(
        decode_error("502 Bad Gateway", None),
        "clob-index HTTP 502 Bad Gateway: unknown clob-index error"
    );
}

#[test]
fn paging_collects_every_market() {
    let total = 250usize;
    let mut pager = MarketPager::new();
    let mut requests = 0;
    while !pager.done {
        let from = pager.offset as usize;
        let to = total.min(from + 100);
        let markets = (from..to).map(|n| market(&format!("m{n}"), "0x0")).collect();
        pager.add_page(MarketsPage { markets, total, limit: 100, offset: pager.offset });
        requests += 1;
    }
    assert_eq!(requests, 3);
    assert_eq!(pager.markets.len(), total);
    assert_eq!(pager.markets[249].slug, "m249");
}

#[test]
fn an_empty_page_ends_the_paging() {
    let mut pager = MarketPager::new();
    pager.add_page(MarketsPage { markets: Vec::new(), total: 5, limit: 100, offset: 0 });
    assert!(pager.done);
}

#[test]
fn ticks_fall_back_to_the_default() {
    let mut info = SpotMarketInfo {
        last_price: None,
        state: "open".to_string(),
        min_order_size: "0.1".to_string(),
        tick_size: "0.005".to_string(),
        maker_fee_bps: 10,
        taker_fee_bps: 20,
        allow_market_orders: true,
    };
    assert_eq!(resolve_tick_size_raw(Some(&info)), 5_000);
    info.tick_size = "0".to_string();
    assert_eq!(resolve_tick_size_raw(Some(&info)), 1_000);
    info.tick_size = "small".to_string();
    assert_eq!(resolve_tick_size_raw(Some(&info)), 1_000);
    assert_eq!(resolve_tick_size_raw(None), 1_000);
}

#[test]
fn every_market_gives_two_instruments() {
    let markets = vec![market("a", "0x1"), market("b", "0x2")];
    let options = match instruments_for_markets(
        &markets,
        &[(1_000, 1_000), (1_000, 2_000)],
        &env(),
        7,
    ) {
        Ok(options) => options,
        Err(error) => panic!("{error:?}"),
    };
    let symbols: Vec<&str> = options
        .iter()
        .map(|option| option.instrument.id.symbol.as_str())
        .collect();
    assert_eq!(symbols, vec!["a-YES", "a-NO", "b-YES", "b-NO"]);
    assert!(options.iter().all(|option| option.currency.code == "USDT"));
    assert!(instruments_for_markets(&markets, &[(1, 1), (0, 1)], &env(), 7).is_err());
}

#[test]
fn a_refused_tick_ends_the_list() {
    let mut far = market("b", "0x2");
    far.resolution_deadline = u64::MAX;
    far.no_spot_market = " ".to_string();
    let mut blank = market("c", "0x3");
    blank.yes_spot_market = "".to_string();
    let markets = vec![market("a", "0x1"), far, blank];
    let large = [(1_000, 1_000), (u64::MAX, 1_000), (1_000, 1_000)];
    match instruments_for_markets(&markets, &large, &env(), 7) {
        Err(error) => assert!(error.message().contains("invalid tick size 18446744073709551615")),
        Ok(options) => panic!("{options:?}"),
    }
    let zero = [(1_000, 0), (1_000, 1_000), (1_000, 1_000)];
    assert!(instruments_for_markets(&markets, &zero, &env(), 7).is_err());
}

#[test]
fn tokens_of_an_order() {
    let full = instrument("0x33", Some("0xc0"), Some("0x11"));
    assert_eq!(token_address_for_side(&full, OrderSide::Buy), vec!["0xc0", "0x33"]);
    assert_eq!(token_address_for_side(&full, OrderSide::Sell), vec!["0x11"]);
    let bare = instrument("0x33", None, None);
    assert_eq!(token_address_for_side(&bare, OrderSide::Buy), vec!["", "0x33"]);
    assert_eq!(token_address_for_side(&bare, OrderSide::Sell), vec!["0x33"]);
}

#[test]
fn limit_orders_are_planned() {
    let client = signing_client();
    let id = InstrumentId { symbol: "rain-YES".to_string(), venue: "LIGHTPOOL".to_string() };
    let request = match client.submit_order(
        &id,
        OrderSide::Buy,
        OrderType::Limit,
        quantity(2_500_000_000),
        TimeInForce::Gtc,
        price(523_400_000),
    ) {
        Ok(request) => request,
        Err(refusal) => panic!("{}", refusal.message()),
    };
    assert_eq!(request.spot_market, "0x33");
    assert_eq!(request.amount, 2_500_000);
    assert_eq!(request.limit_price, 523_000);
    assert_eq!(request.token_candidates, vec!["0xc0", "0x33"]);
    assert_eq!(request.time_in_force, TimeInForce::Gtc);
}

#[test]
fn unsupported_orders_are_refused() {
    let client = signing_client();
    let id = InstrumentId { symbol: "rain-YES".to_string(), venue: "LIGHTPOOL".to_string() };
    let other = InstrumentId { symbol: "snow-YES".to_string(), venue: "LIGHTPOOL".to_string() };
    let size = quantity(1_000_000_000);
    let refusal = |side, kind, size, tif, price| {
        match client.submit_order(&id, side, kind, size, tif, price) {
            Ok(request) => panic!("{request:?}"),
            Err(refusal) => refusal,
        }
    };
    assert!(matches!(
        refusal(OrderSide::NoOrderSide, OrderType::Limit, size, TimeInForce::Gtc, price(1)),
        OrderRefusal::UnsupportedSide(OrderSide::NoOrderSide)
    ));
    assert!(matches!(
        refusal(OrderSide::Buy, OrderType::Limit, quantity(0), TimeInForce::Gtc, price(1)),
        OrderRefusal::ZeroSize
    ));
    assert!(matches!(
        refusal(OrderSide::Buy, OrderType::Limit, size, TimeInForce::Day, price(1)),
        OrderRefusal::UnsupportedTimeInForce(TimeInForce::Day)
    ));
    assert!(matches!(
        refusal(OrderSide::Buy, OrderType::Limit, size, TimeInForce::Ioc, None),
        OrderRefusal::MissingPrice
    ));
    assert!(matches!(
        refusal(OrderSide::Buy, OrderType::Limit, size, TimeInForce::Fok, price(2_000_000_000)),
        OrderRefusal::Amount(_)
    ));
    let market = refusal(OrderSide::Buy, OrderType::Market, size, TimeInForce::Gtc, None);
    assert_eq!(market.message(), "unsupported order type: Market");
    match client.submit_order(
        &other,
        OrderSide::Buy,
        OrderType::Limit,
        size,
        TimeInForce::Gtc,
        price(1),
    ) {
        Err(refusal) => assert_eq!(
            refusal.message(),
            "instrument not found in cache: snow-YES.LIGHTPOOL. Ensure instruments are loaded."
        ),
        Ok(request) => panic!("{request:?}"),
    }
}

#[test]
fn cancels_need_signer_and_instrument() {
    let id = InstrumentId { symbol: "rain-YES".to_string(), venue: "LIGHTPOOL".to_string() };
    assert!(matches!(signing_client().cancel_order(&id), Ok(spot) if spot == "0x33"));
    let client = ClobIndexHttpClient::new("http://index");
    assert!(matches!(
        client.cancel_order(&id),
        Err(OrderRefusal::Client(ClientError::SignerNotSet))
    ));
}

#[test]
fn complete_sets_are_minted_and_burnt() {
    let client = signing_client();
    let market = market("rain", "0x0a");
    match client.submit_mint_outcome(&market, decimal("1.5")) {
        Ok(request) => {
            assert_eq!(request.amount, 1_500_000);
            assert_eq!(request.market_address, "0x0a");
            assert_eq!(request.collateral_token, "0xc0");
            assert_eq!(request.yes_token, "0x11");
            assert_eq!(request.no_token, "0x22");
        }
        Err(refusal) => panic!("{refusal:?}"),
    }
    assert_eq!(
        client.submit_burn_outcome(&market, decimal("0")).err(),
        Some(SetRefusal::ZeroAmount)
    );
    assert_eq!(
        client.submit_burn_outcome(&market, decimal("-1")).err(),
        Some(SetRefusal::InvalidAmount)
    );
    assert_eq!(
        ClobIndexHttpClient::new("http://index")
            .submit_mint_outcome(&market, decimal("1"))
            .err(),
        Some(SetRefusal::SignerNotSet)
    );
}

#[test]
fn receipts_are_read() {
    assert_eq!(
        transaction_result("cancel_order", "d".to_string(), true, ""),
        Ok("d".to_string())
    );
    assert_eq!(
        transaction_result("cancel_order", "d".to_string(), false, "Failure"),
        Err("cancel_order failed: Failure".to_string())
    );
    assert_eq!(
        place_order_result("d".to_string(), true, "", Some(7)),
        Ok(("d".to_string(), 7))
    );
    assert_eq!(
        place_order_result("d".to_string(), true, "", None),
        Err("order_created event missing from receipt".to_string())
    );
    assert_eq!(
        place_order_result("d".to_string(), false, "Failure", Some(7)),
        Err("place_order failed: Failure".to_string())
    );
}

#[test]
fn new_markets_have_fixed_terms() {
    let plan = plan_bootstrap("Will it rain?", " 0xc0 ", 99);
    assert_eq!(plan.collateral_token, "0xc0");
    assert_eq!((plan.tick_size, plan.min_order_size), (1_000, 100_000));
    assert_eq!((plan.maker_fee_bps, plan.taker_fee_bps), (10, 20));
    assert!(plan.allow_market_orders);
    assert_eq!(plan.resolution_deadline, 99);
    let other = create_event_contract("?", "0xc0", 1, 2, 3, 4, 5, false);
    assert_eq!((other.tick_size, other.taker_fee_bps), (2, 5));
    assert!(!other.allow_market_orders);
}

fn created() -> EventContractCreated {
    EventContractCreated {
        market_address: "0x0A".to_string(),
        collateral_token: "0xc0".to_string(),
        yes_token: "0x11".to_string(),
        no_token: "0x22".to_string(),
    }
}

#[test]
fn created_contracts_are_read_from_receipts() {
    assert!(created_event(true, "", Some(created())).is_ok());
    assert!(matches!(
        created_event(true, "", None),
        Err(error) if error == "event_contract_created missing from receipt"
    ));
    assert!(matches!(
        created_event(false, "Failure", Some(created())),
        Err(error) if error == "create_event_contract failed: Failure"
    ));
}

#[test]
fn a_market_is_awaited_by_address() {
    let mut wait = MarketWait::new("0x0A");
    assert!(wait.poll(Ok(vec![market("other", "0x0b")])).is_none());
    assert!(wait.poll(Err("refused".to_string())).is_none());
    match wait.poll(Ok(vec![market("other", "0x0b"), market("rain", "0x0a")])) {
        Some(indexed) => {
            let done = bootstrap_one_market("Will it rain?", created(), indexed);
            assert_eq!(done.slug, "rain");
            assert_eq!(done.market_address, "0x0A");
            assert_eq!(done.question, "Will it rain?");
            assert_eq!((done.yes_token.as_str(), done.no_token.as_str()), ("0x11", "0x22"));
        }
        None => panic!("not found"),
    }
    let timeout = wait.timed_out();
    assert_eq!(timeout.message, "timed out waiting for market 0x0A in clob-index");
    assert_eq!(timeout.cause, Some("refused".to_string()));
}
