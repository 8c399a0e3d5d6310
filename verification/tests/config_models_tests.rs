use hft_lead_lag::config::{credentials_override, ExchangeCredentials};
use hft_lead_lag::config::{
    check_strategy_buildable, map_exchange_id, parse_trading_mode, ExchangeId as ConfigExchangeId, StrategyBuildError,
    StrategyKind, StrategyRuntimeConfig, TradingMode,
};
use hft_lead_lag::models::{Direction, ExchangeId, MarginType, Side, SignalDirection};

#[test]
fn trading_mode_defaults_to_paper_and_rejects_others() {
    assert_eq!(parse_trading_mode(None), Ok(TradingMode::Paper));
    assert_eq!(parse_trading_mode(Some("   ")), Ok(TradingMode::Paper));
    assert_eq!(parse_trading_mode(Some(" PaPeR ")), Ok(TradingMode::Paper));
    let err = parse_trading_mode(Some("shadow_only")).expect_err("shadow_only must be rejected");
    assert_eq!(err.raw, "shadow_only");
    let err = parse_trading_mode(Some(" papre ")).expect_err("unknown mode must be rejected");
    assert_eq!(err.raw, "papre");
    assert_eq!(TradingMode::Paper.as_str(), "paper");
}

#[test]
fn strategy_kind_names_and_buildability() {
    assert_eq!(StrategyKind::LeadLagClassic.as_str(), "lead_lag_classic");
    assert_eq!(StrategyKind::DislocationReversion.as_str(), "dislocation_reversion");
    assert_eq!(StrategyRuntimeConfig::default().active, StrategyKind::LeadLagClassic);
    assert!(check_strategy_buildable(StrategyKind::LeadLagClassic).is_ok());
    assert_eq!(
        check_strategy_buildable(StrategyKind::DislocationReversion),
        Err(StrategyBuildError::NotImplemented(StrategyKind::DislocationReversion))
    );
}

#[test]
fn exchange_ids_map_to_futures_venues() {
    assert_eq!(map_exchange_id(ConfigExchangeId::Binance), ExchangeId::BinanceFutures);
    assert_eq!(map_exchange_id(ConfigExchangeId::Gate), ExchangeId::GateFutures);
    assert_eq!(ExchangeId::GateFutures.name(), "gate_futures");
}

#[test]
fn sides_and_directions() {
    assert_eq!(Side::Buy.opposite(), Side::Sell);
    assert_eq!(Side::Sell.opposite().opposite(), Side::Sell);
    assert_eq!(Side::default(), Side::Buy);
    assert_eq!(MarginType::default(), MarginType::Cross);
    assert_eq!(SignalDirection::LongLagger.as_str(), "LONG_LAGGER");
    assert_eq!(SignalDirection::ShortLagger.as_str(), "SHORT_LAGGER");
    assert_eq!(Direction::Long.as_str(), "LONG");
}

#[test]
fn env_credentials_replace_only_when_key_and_secret_given() {
    let file = Some(ExchangeCredentials { api_key: "k0".to_string(), api_secret: "s0".to_string() });
    let both = credentials_override(file.clone(), Some("k1".to_string()), Some("s1".to_string()));
    assert_eq!(both, Some(ExchangeCredentials { api_key: "k1".to_string(), api_secret: "s1".to_string() }));
    assert_eq!(credentials_override(file.clone(), Some("k1".to_string()), None), file);
    assert_eq!(credentials_override(None, None, Some("s1".to_string())), None);
}
