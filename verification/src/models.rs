//! Domain enums for orders, exchanges and trade directions.

use vstd::prelude::*;

verus! {

/// Order side.
#[derive(Debug, Clone, Copy, PartialEq, Eq)]
pub enum Side {
    Buy,
    Sell,
}

/// The other side.
pub open spec fn opposite_side(s: Side) -> Side {
    match s {
        Side::Buy => Side::Sell,
        Side::Sell => Side::Buy,
    }
}

impl Side {
    /// The other side.
    pub fn opposite(&self) -> (r: Side)
        ensures
            r == opposite_side(*self),
    {
        match self {
            Side::Buy => Side::Sell,
            Side::Sell => Side::Buy,
        }
    }
}

impl Default for Side {
    fn default() -> (r: Self)
        ensures
            r == Side::Buy,
    {
        Side::Buy
    }
}

/// The opposite side differs from the side, and taking it twice gives the
/// side back.
pub proof fn lemma_opposite_involutive(s: Side)
    ensures
        opposite_side(s) != s,
        opposite_side(opposite_side(s)) == s,
{
}

/// Order type.
#[derive(Debug, Clone, Copy, PartialEq, Eq)]
pub enum OrderType {
    Limit,
    Market,
    StopLimit,
    StopMarket,
}

/// Order status.
#[derive(Debug, Clone, Copy, PartialEq, Eq)]
pub enum OrderStatus {
    New,
    PartiallyFilled,
    Filled,
    Canceled,
    Rejected,
    Expired,
}

/// Time in force: good till cancel, fill or kill, immediate or cancel, post only.
#[derive(Debug, Clone, Copy, PartialEq, Eq)]
pub enum TimeInForce {
    Gtc,
    Fok,
    Ioc,
    Gtx,
}

/// Margin type.
#[derive(Debug, Clone, Copy, PartialEq, Eq)]
pub enum MarginType {
    Cross,
    Isolated,
}

impl Default for MarginType {
    fn default() -> (r: Self)
        ensures
            r == MarginType::Cross,
    {
        MarginType::Cross
    }
}

/// A futures exchange the runtime trades on.
#[derive(Debug, Clone, Copy, PartialEq, Eq, Hash)]
pub enum ExchangeId {
    BinanceFutures,
    GateFutures,
}

impl ExchangeId {
    /// Display name of the exchange.
    pub fn name(&self) -> (r: &'static str)
        ensures
            r@ == (match *self { ExchangeId::BinanceFutures => "binance_futures"@, ExchangeId::GateFutures => "gate_futures"@ }),
    {
        match self {
            ExchangeId::BinanceFutures => "binance_futures",
            ExchangeId::GateFutures => "gate_futures",
        }
    }
}

/// Errors of exchange connectors, each with a detail message.
#[derive(Debug, Clone, PartialEq, Eq)]
pub enum ExchangeError {
    WebSocketError(String),
    AuthError(String),
    OrderRejected(String),
    RateLimited(String),
    SymbolNotFound(String),
    ParseError(String),
    ConnectionClosed(String),
    Timeout(String),
    Internal(String),
}

/// Direction of a lead-lag signal on the lagging exchange.
#[derive(Debug, Clone, Copy, PartialEq, Eq)]
pub enum SignalDirection {
    LongLagger,
    ShortLagger,
}

impl SignalDirection {
    /// Wire name of the direction.
    pub fn as_str(self) -> (r: &'static str)
        ensures
            r@ == (match self { SignalDirection::LongLagger => "LONG_LAGGER"@, SignalDirection::ShortLagger => "SHORT_LAGGER"@ }),
    {
        match self {
            SignalDirection::LongLagger => "LONG_LAGGER",
            SignalDirection::ShortLagger => "SHORT_LAGGER",
        }
    }
}

/// Direction of a shadow position.
#[derive(Debug, Clone, Copy, PartialEq, Eq)]
pub enum Direction {
    Short,
    Long,
}

impl Direction {
    /// Wire name of the direction.
    pub fn as_str(self) -> (r: &'static str)
        ensures
            r@ == (match self { Direction::Long => "LONG"@, Direction::Short => "SHORT"@ }),
    {
        match self {
            Direction::Long => "LONG",
            Direction::Short => "SHORT",
        }
    }
}

} // verus!
