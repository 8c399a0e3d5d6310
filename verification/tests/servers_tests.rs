use hft_lead_lag::servers::{HttpServerConfig, WsServerConfig};

#[test]
fn test_server_config() {
    let config = WsServerConfig::default();
    assert_eq!(config.port, 8181);
}

#[test]
fn server_configs_render_bind_addresses() {
    assert_eq!(WsServerConfig::default().bind_address(), "0.0.0.0:8181");
    assert_eq!(WsServerConfig::default().max_clients, 100);
    assert_eq!(HttpServerConfig::default().bind_address(), "0.0.0.0:5000");
}
