//! Configuration values: exchange selection, strategy kind, trading mode and
//! per-exchange settings.

use vstd::prelude::*;
use crate::text::{trim_str, eq_ignore_ascii_case_str, ascii_case_folded};
use crate::models::ExchangeId as VenueId;

verus! {

/// API credentials of one exchange.
#[derive(Debug, Clone, PartialEq, Eq)]
pub struct ExchangeCredentials {
    pub api_key: String,
    pub api_secret: String,
}

/// Binance settings.
#[derive(Debug, Clone, PartialEq, Eq)]
pub struct BinanceConfig {
    pub enabled: bool,
    pub credentials: Option<ExchangeCredentials>,
    pub blacklist: Vec<String>,
}

/// Gate.io settings.
#[derive(Debug, Clone, PartialEq, Eq)]
pub struct GateConfig {
    pub enabled: bool,
    pub credentials: Option<ExchangeCredentials>,
    pub blacklist: Vec<String>,
}

/// Exchange as named in the configuration file.
#[derive(Debug, Clone, Copy, PartialEq, Eq, Structural)]
pub enum ExchangeId {
    Binance,
    Gate,
}

/// The futures venue a configured exchange stands for.
pub open spec fn venue_of(e: ExchangeId) -> VenueId {
    match e {
        ExchangeId::Binance => VenueId::BinanceFutures,
        ExchangeId::Gate => VenueId::GateFutures,
    }
}

/// The futures venue a configured exchange stands for (see [`venue_of`]).
pub fn map_exchange_id(exchange: ExchangeId) -> (r: VenueId)
    ensures
        r == venue_of(exchange),
{
    match exchange {
        ExchangeId::Binance => VenueId::BinanceFutures,
        ExchangeId::Gate => VenueId::GateFutures,
    }
}

/// Runtime strategy selector.
#[derive(Debug, Clone, Copy, PartialEq, Eq)]
pub enum StrategyKind {
    LeadLagClassic,
    DislocationReversion,
}

impl StrategyKind {
    /// Configuration name of the strategy.
    pub fn as_str(self) -> (r: &'static str)
        ensures
            r@ == (match self {
                StrategyKind::LeadLagClassic => "lead_lag_classic"@,
                StrategyKind::DislocationReversion => "dislocation_reversion"@,
            }),
    {
        match self {
            StrategyKind::LeadLagClassic => "lead_lag_classic",
            StrategyKind::DislocationReversion => "dislocation_reversion",
        }
    }
}

impl Default for StrategyKind {
    fn default() -> (r: Self)
        ensures
            r == StrategyKind::LeadLagClassic,
    {
        StrategyKind::LeadLagClassic
    }
}

/// Strategy selection.
#[derive(Debug, Clone, Copy, PartialEq, Eq)]
pub struct StrategyRuntimeConfig {
    pub active: StrategyKind,
}

impl Default for StrategyRuntimeConfig {
    fn default() -> (r: Self)
        ensures
            r.active == StrategyKind::LeadLagClassic,
    {
        StrategyRuntimeConfig { active: StrategyKind::LeadLagClassic }
    }
}

/// Why the configured strategy cannot be built.
#[derive(Debug, Clone, Copy, PartialEq, Eq)]
pub enum StrategyBuildError {
    NotImplemented(StrategyKind),
}

/// Checks that the configured strategy is implemented: only the classic
/// lead-lag strategy is.
pub fn check_strategy_buildable(kind: StrategyKind) -> (r: Result<(), StrategyBuildError>)
    ensures
        r is Ok <==> kind == StrategyKind::LeadLagClassic,
        r is Err ==> r == Err::<(), StrategyBuildError>(StrategyBuildError::NotImplemented(kind)),
{
    match kind {
        StrategyKind::LeadLagClassic => Ok(()),
        other => Err(StrategyBuildError::NotImplemented(other)),
    }
}

/// Runtime execution mode.
#[derive(Debug, Clone, Copy, PartialEq, Eq)]
pub enum TradingMode {
    Paper,
}

impl TradingMode {
    /// Configuration name of the mode.
    pub fn as_str(self) -> (r: &'static str)
        ensures
            r@ == "paper"@,
    {
        match self {
            TradingMode::Paper => "paper",
        }
    }
}

/// A trading mode value that is not supported; holds the trimmed value.
#[derive(Debug, Clone, PartialEq, Eq)]
pub struct UnsupportedTradingMode {
    pub raw: String,
}

/// Parses the `TRADING_MODE` setting: missing or blank means paper trading,
/// `paper` in any ASCII case is accepted, anything else is refused.
pub fn parse_trading_mode(raw: Option<&str>) -> (r: Result<TradingMode, UnsupportedTradingMode>)
    ensures
        match raw {
            None => r == Ok::<TradingMode, UnsupportedTradingMode>(TradingMode::Paper),
            Some(s) => {
                let t = crate::text::trimmed(s@);
                if t.len() == 0 || ascii_case_folded(t) == ascii_case_folded("paper"@) {
                    r == Ok::<TradingMode, UnsupportedTradingMode>(TradingMode::Paper)
                } else {
                    r is Err && r->Err_0.raw@ == t
                }
            },
        },
{
    match raw {
        None => Ok(TradingMode::Paper),
        Some(s) => {
            let t = trim_str(s);
            if t.is_empty() {
                return Ok(TradingMode::Paper);
            }
            if eq_ignore_ascii_case_str(t, "paper") {
                return Ok(TradingMode::Paper);
            }
            Err(UnsupportedTradingMode { raw: t.to_owned() })
        },
    }
}

/// Credentials after the environment override: a key and a secret given
/// together replace the configured credentials; otherwise these stay.
pub fn credentials_override(
    current: Option<ExchangeCredentials>,
    api_key: Option<String>,
    api_secret: Option<String>,
) -> (r: Option<ExchangeCredentials>)
    ensures
        match (api_key, api_secret) {
            (Some(k), Some(s)) => r == Some(ExchangeCredentials { api_key: k, api_secret: s }),
            _ => r == current,
        },
{
    match (api_key, api_secret) {
        (Some(k), Some(s)) => Some(ExchangeCredentials { api_key: k, api_secret: s }),
        _ => current,
    }
}

} // verus!
