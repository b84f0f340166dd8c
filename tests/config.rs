use p2p_protocol::{KadMode, P2PConfig};

#[test]
fn test_protocol_id() {
    let config = P2PConfig::new("mainnet".to_string());
    assert_eq!(config.protocol_id(), "/teranode/bitcoin/mainnet/1.0.0");

    let config = P2PConfig::new("testnet".to_string());
    assert_eq!(config.protocol_id(), "/teranode/bitcoin/testnet/1.0.0");
}

#[test]
fn test_builder_pattern() {
    let config = P2PConfig::new("regtest".to_string())
        .with_mdns(false)
        .with_kad_mode(KadMode::Client);

    assert_eq!(config.network, "regtest");
    assert!(!config.enable_mdns);
    assert_eq!(config.kad_mode, KadMode::Client);
}

#[test]
fn test_default_bootstrap_peers() {
    let config = P2PConfig::default();

    assert_eq!(config.bootstrap_peers.len(), 6);

    let has_dnsaddr = config
        .bootstrap_peers
        .iter()
        .any(|addr| addr.contains("dnsaddr"));
    let has_direct_ip = config
        .bootstrap_peers
        .iter()
        .any(|addr| addr.contains("104.131.131.82"));

    assert!(has_dnsaddr, "should have DNS bootstrap peers");
    assert!(has_direct_ip, "should have direct IP bootstrap peers");
}

#[test]
fn protocol_id_of_regtest_and_custom_version() {
    let config = P2PConfig::new("regtest".to_string());
    assert_eq!(config.protocol_id(), "/teranode/bitcoin/regtest/1.0.0");

    let mut config = P2PConfig::new("testnet".to_string());
    config.protocol_version = "2.1.0".to_string();
    assert_eq!(config.protocol_id(), "/teranode/bitcoin/testnet/2.1.0");
}

#[test]
fn protocol_id_is_the_same_on_every_call() {
    let config = P2PConfig::new("testnet".to_string());
    assert_eq!(config.protocol_id(), config.protocol_id());
    assert_eq!(
        P2PConfig::new("testnet".to_string()).protocol_id(),
        config.protocol_id()
    );
}

#[test]
fn defaults_of_a_new_configuration() {
    let config = P2PConfig::new("testnet".to_string());
    assert_eq!(config.protocol_version, "1.0.0");
    assert!(config.listen_addresses.is_empty());
    assert!(config.key_file.is_none());
    assert!(config.private_key_hex.is_none());
    assert!(config.enable_mdns);
    assert_eq!(config.kad_mode, KadMode::Server);
    assert_eq!(config.bootstrap_peers, P2PConfig::default_bootstrap_peers());
}

#[test]
fn no_supplied_bootstrap_peers_keeps_the_defaults() {
    let config = P2PConfig::new("mainnet".to_string()).with_bootstrap_peers(vec![]);
    assert_eq!(config.bootstrap_peers.len(), 6);
    assert_eq!(config.bootstrap_peers, P2PConfig::default_bootstrap_peers());
    assert_eq!(
        config.bootstrap_peers[4],
        "/ip4/104.131.131.82/tcp/4001/p2p/QmaCpDMGvV2BGHeYERUEnRQAwe3N8SzbUtfsmvsqQLuvuJ"
    );
}

#[test]
fn supplied_bootstrap_peers_replace_the_defaults() {
    let seed = "/ip4/10.0.0.1/tcp/9905/p2p/12D3KooWEyoppNCUx8Yx66oV9fJnriXwCcXwDDUA2kj6vnc6iDEp";
    let config = P2PConfig::new("mainnet".to_string()).with_bootstrap_peers(vec![seed.to_string()]);
    assert_eq!(config.bootstrap_peers, vec![seed.to_string()]);
}

#[test]
fn builders_set_their_field() {
    let config = P2PConfig::new("regtest".to_string())
        .with_listen_addresses(vec!["/ip4/0.0.0.0/tcp/9005".to_string()])
        .with_private_key_hex("abcd".to_string())
        .with_key_file(std::path::PathBuf::from("/tmp/node.key"));
    assert_eq!(config.listen_addresses, vec!["/ip4/0.0.0.0/tcp/9005".to_string()]);
    assert_eq!(config.private_key_hex.as_deref(), Some("abcd"));
    assert_eq!(config.key_file, Some(std::path::PathBuf::from("/tmp/node.key")));
    assert_eq!(config.network, "regtest");
}

#[test]
fn topic_names_are_scoped_by_the_protocol_id() {
    let config = P2PConfig::new("testnet".to_string());
    assert_eq!(config.topic_name("blocks"), "/teranode/bitcoin/testnet/1.0.0/blocks");
    assert_eq!(
        config.subscription_topics(),
        vec![
            "/teranode/bitcoin/testnet/1.0.0/blocks".to_string(),
            "/teranode/bitcoin/testnet/1.0.0/subtrees".to_string(),
            "/teranode/bitcoin/testnet/1.0.0/rejected_tx".to_string(),
            "/teranode/bitcoin/testnet/1.0.0/node_status".to_string(),
        ]
    );
}

#[test]
fn seeds_are_the_addresses_that_embed_a_peer_id() {
    let seeds = P2PConfig::new("mainnet".to_string()).bootstrap_seeds();
    assert_eq!(seeds.len(), 6);
    assert_eq!(seeds[0].0, "QmNnooDu7bfjPFoTZYxMNLWUQJyrVwtbZg5gBMjTezGAJN");
    assert_eq!(
        seeds[0].1,
        "/dnsaddr/bootstrap.libp2p.io/p2p/QmNnooDu7bfjPFoTZYxMNLWUQJyrVwtbZg5gBMjTezGAJN"
    );
    let config = P2PConfig::new("mainnet".to_string()).with_bootstrap_peers(vec![
        "/ip4/10.0.0.1/tcp/9905".to_string(),
        "not an address".to_string(),
        "/ip4/10.0.0.2/tcp/9905/p2p/12D3KooWEyoppNCUx8Yx66oV9fJnriXwCcXwDDUA2kj6vnc6iDEp".to_string(),
    ]);
    let seeds = config.bootstrap_seeds();
    assert_eq!(seeds.len(), 1);
    assert_eq!(seeds[0].0, "12D3KooWEyoppNCUx8Yx66oV9fJnriXwCcXwDDUA2kj6vnc6iDEp");
}

#[test]
fn network_prefix_scopes_compatibility() {
    assert_eq!(P2PConfig::new("testnet".to_string()).network_prefix(), "/teranode/bitcoin/testnet/");
}
