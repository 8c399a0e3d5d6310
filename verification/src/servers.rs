//! Server settings: HTTP and market-data WebSocket bind addresses.

use vstd::prelude::*;
use crate::text::{decimal, u64_to_decimal, concat_str};

verus! {

/// `address:port`.
pub open spec fn bind_text(address: Seq<char>, port: u16) -> Seq<char> {
    address + ":"@ + decimal(port as nat)
}

fn join_bind_address(address: &str, port: u16) -> (r: String)
    ensures
        r@ == bind_text(address@, port),
{
    let a = concat_str(address, ":");
    let p = u64_to_decimal(port as u64);
    concat_str(a.as_str(), p.as_str())
}

/// HTTP server settings.
#[derive(Debug, Clone, PartialEq, Eq)]
pub struct HttpServerConfig {
    pub bind_address: String,
    pub port: u16,
}

impl Default for HttpServerConfig {
    fn default() -> (c: Self)
        ensures
            c.bind_address@ == "0.0.0.0"@,
            c.port == 5000,
    {
        HttpServerConfig { bind_address: "0.0.0.0".to_owned(), port: 5000 }
    }
}

impl HttpServerConfig {
    /// The address to bind, `address:port`.
    pub fn bind_address(&self) -> (r: String)
        ensures
            r@ == bind_text(self.bind_address@, self.port),
    {
        join_bind_address(self.bind_address.as_str(), self.port)
    }
}

/// Which routes the HTTP server exposes.
#[derive(Debug, Clone, Copy, PartialEq, Eq)]
pub enum HttpServerSurface {
    Full,
    HealthOnly,
}

/// Market-data WebSocket server settings.
#[derive(Debug, Clone, PartialEq, Eq)]
pub struct WsServerConfig {
    pub bind_address: String,
    pub port: u16,
    pub max_clients: usize,
}

impl Default for WsServerConfig {
    fn default() -> (c: Self)
        ensures
            c.bind_address@ == "0.0.0.0"@,
            c.port == 8181,
            c.max_clients == 100,
    {
        WsServerConfig { bind_address: "0.0.0.0".to_owned(), port: 8181, max_clients: 100 }
    }
}

impl WsServerConfig {
    /// The address to bind, `address:port`.
    pub fn bind_address(&self) -> (r: String)
        ensures
            r@ == bind_text(self.bind_address@, self.port),
    {
        join_bind_address(self.bind_address.as_str(), self.port)
    }
}

} // verus!
