use bevy_iroh::config::{IrohClientConfig, IrohEndpointConfig, IrohServerConfig};

fn minimal() -> iroh::endpoint::Builder {
    iroh::Endpoint::builder(iroh::endpoint::presets::Minimal)
}

#[test]
fn the_default_configuration_has_the_default_relays_only() {
    for config in [
        IrohEndpointConfig::default(),
        IrohClientConfig::default().endpoint,
        IrohServerConfig::default().endpoint,
    ] {
        assert_eq!(config.relay_mode, iroh::RelayMode::Default);
        assert!(config.alpns.is_empty());
        assert!(config.secret_key.is_none());
        assert!(config.ca_tls_config.is_none());
    }
}

#[test]
fn a_configured_key_is_used() {
    let key = iroh::SecretKey::from_bytes(&[3; 32]);
    let mut config = IrohEndpointConfig::default();
    config.secret_key = Some(key.clone());
    assert_eq!(config.resolve_secret_key().to_bytes(), key.to_bytes());
    config.relay_mode = iroh::RelayMode::Disabled;
    let runtime =
        tokio::runtime::Builder::new_multi_thread().worker_threads(1).enable_all().build().unwrap();
    let endpoint = runtime.block_on(config.apply_to_builder(minimal()).bind()).unwrap();
    assert_eq!(endpoint.id(), key.public());
}

#[test]
fn a_key_is_generated_where_none_is_configured() {
    let config = IrohEndpointConfig::default();
    let first = config.resolve_secret_key();
    let second = config.resolve_secret_key();
    assert_ne!(first.to_bytes(), second.to_bytes());
}

#[test]
fn a_builder_is_told_the_configuration() {
    let mut config = IrohEndpointConfig::default();
    config.alpns = vec![vec![11, 12], vec![13]];
    let told = format!("{:?}", config.apply_to_builder(minimal()));
    assert!(told.contains("alpn_protocols: [[11, 12], [13]]"));
    assert!(told.contains("secret_key: Some("));
    assert!(told.contains("Relay {"));
    assert!(told.contains("ca_tls_config: None"));
    config.relay_mode = iroh::RelayMode::Disabled;
    config.ca_tls_config = Some(iroh::tls::CaTlsConfig::default());
    let told = format!("{:?}", config.apply_to_builder(minimal()));
    assert!(!told.contains("Relay {"));
    assert!(told.contains("ca_tls_config: Some("));
}
