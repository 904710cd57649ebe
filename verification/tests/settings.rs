use lightpool_bot::common::signer::{signer_from_private_key, KeyMaterial};
use lightpool_bot::config::{
    clob_index_http_connect_timeout_secs_from_env, clob_index_http_from_env,
    clob_index_http_timeout_secs_from_env, clob_index_ws_from_env, collateral_token_from_env,
    private_key_from_cli_wallet, private_key_from_env, reject_lightpool_node_endpoint,
    resolve_collateral_token, resolve_private_key, Environment, KeyNotFound,
    LightpoolDataClientConfig, LightpoolExecClientConfig,
};

fn env() -> Environment {
    Environment {
        clob_index_http: None,
        clob_index_ws: None,
        http_timeout_secs: None,
        http_connect_timeout_secs: None,
        private_key: None,
        collateral_token: None,
        collateral_currency: None,
        wallet_private_key: None,
    }
}

#[test]
fn defaults_stand_in_for_unset_variables() {
    let env = env();
    assert_eq!(clob_index_http_from_env(&env), "http://127.0.0.1:3002");
    assert_eq!(clob_index_ws_from_env(&env), "ws://127.0.0.1:3002");
    assert_eq!(clob_index_http_timeout_secs_from_env(&env), 90);
    assert_eq!(clob_index_http_connect_timeout_secs_from_env(&env), 10);
    assert_eq!(resolve_collateral_token(&env), "0x0200000000000001");
    assert_eq!(collateral_token_from_env(&env), None);
}

#[test]
fn variables_are_trimmed_and_blank_ones_ignored() {
    let mut env = env();
    env.clob_index_http = Some("  http://index:3002 ".to_string());
    env.clob_index_ws = Some("   ".to_string());
    env.http_timeout_secs = Some("0".to_string());
    env.http_connect_timeout_secs = Some("25".to_string());
    env.collateral_token = Some(" 0xc0 ".to_string());
    assert_eq!(clob_index_http_from_env(&env), "http://index:3002");
    assert_eq!(clob_index_ws_from_env(&env), "ws://127.0.0.1:3002");
    assert_eq!(clob_index_http_timeout_secs_from_env(&env), 90);
    assert_eq!(clob_index_http_connect_timeout_secs_from_env(&env), 25);
    assert_eq!(resolve_collateral_token(&env), "0xc0");
}

#[test]
fn node_endpoints_are_pointed_out() {
    assert!(reject_lightpool_node_endpoint("X", "http://127.0.0.1:26300").is_some());
    assert!(reject_lightpool_node_endpoint("X", "http://127.0.0.1:26400/a").is_some());
    assert!(reject_lightpool_node_endpoint("X", "http://127.0.0.1:3002").is_none());
}

#[test]
fn the_environment_key_comes_before_the_wallet() {
    let mut env = env();
    assert_eq!(resolve_private_key(&env), Err(KeyNotFound));
    env.wallet_private_key = Some(" wallet ".to_string());
    assert_eq!(private_key_from_cli_wallet(&env), Some("wallet".to_string()));
    assert_eq!(resolve_private_key(&env), Ok("wallet".to_string()));
    env.private_key = Some("environment".to_string());
    assert_eq!(private_key_from_env(&env), Some("environment".to_string()));
    assert_eq!(resolve_private_key(&env), Ok("environment".to_string()));
    assert!(KeyNotFound.message().contains("LIGHTPOOL_PRIVATE_KEY"));
}

#[test]
fn the_configured_key_comes_first() {
    let mut env = env();
    env.private_key = Some("environment".to_string());
    let mut config = LightpoolExecClientConfig::new(vec!["rain".to_string()], &env);
    assert_eq!(config.resolved_private_key(&env), Ok("environment".to_string()));
    config.private_key = Some(" configured ".to_string());
    assert_eq!(config.resolved_private_key(&env), Ok("configured".to_string()));
    config.private_key = None;
    env.private_key = None;
    assert_eq!(config.resolved_private_key(&env), Err(KeyNotFound));
}

#[test]
fn data_configs_have_a_depth() {
    let config = LightpoolDataClientConfig::new(vec!["rain".to_string()], &env());
    assert_eq!(config.book_depth, 10);
    assert_eq!(config.market_slugs, vec!["rain".to_string()]);
    assert_eq!(config.with_book_depth(25).book_depth, 25);
}

#[test]
fn hex_keys_are_decoded() {
    let key = "0a".repeat(32);
    for text in [key.clone(), format!("0x{key}"), format!(" 0X{} ", key.to_uppercase())] {
        match signer_from_private_key(&text) {
            KeyMaterial::Bytes(bytes) => assert_eq!(bytes, vec![10u8; 32]),
            KeyMaterial::Base64(other) => panic!("{other}"),
        }
    }
}

#[test]
fn other_keys_are_base64() {
    for text in ["c2VjcmV0", "0x0a", &"zz".repeat(32)] {
        match signer_from_private_key(text) {
            KeyMaterial::Base64(secret) => assert_eq!(secret, text),
            KeyMaterial::Bytes(bytes) => panic!("{bytes:?}"),
        }
    }
}
