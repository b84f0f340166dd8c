use p2p_protocol::registry::supports_teranode_protocol;
use p2p_protocol::{
    keypair_to_hex, load_or_generate_keypair, ClientState, NetworkEvent, P2PClient, P2PConfig, P2PError, PeerInfo,
    PeerRegistry,
};

const A: &str = "12D3KooWA";
const TESTNET: &str = "/teranode/bitcoin/testnet/";
const B: &str = "12D3KooWB";

fn s(x: &str) -> String {
    x.to_string()
}

fn identified(peer: &str, protocols: Vec<&str>, listen: Vec<&str>) -> NetworkEvent {
    NetworkEvent::Identified {
        peer: s(peer),
        agent_version: s("teranode-rust/0.1.0"),
        protocol_version: s("/teranode/bitcoin/testnet/1.0.0"),
        protocols: protocols.into_iter().map(s).collect(),
        listen_addrs: listen.into_iter().map(s).collect(),
    }
}

#[test]
fn repeated_addresses_are_kept_once() {
    let mut p = PeerInfo::new(s(A), 10);
    for (i, a) in ["/ip4/1.1.1.1/tcp/1", "/ip4/2.2.2.2/tcp/2", "/ip4/1.1.1.1/tcp/1", "/ip4/2.2.2.2/tcp/2", "/ip4/1.1.1.1/tcp/1"]
        .iter()
        .enumerate()
    {
        p.add_address(s(a), 20 + i as u64);
    }
    assert_eq!(p.addresses, vec![s("/ip4/1.1.1.1/tcp/1"), s("/ip4/2.2.2.2/tcp/2")]);
    assert_eq!(p.last_seen, 24);
    assert_eq!(p.discovered_at, 10);
}

#[test]
fn last_seen_never_goes_back() {
    let mut p = PeerInfo::new(s(A), 100);
    p.add_address(s("/ip4/1.1.1.1/tcp/1"), 50);
    assert_eq!(p.last_seen, 100);
    p.set_connected(true, 200);
    assert_eq!(p.last_seen, 200);
    p.set_connected(false, 300);
    assert_eq!(p.last_seen, 200);
    assert!(!p.connected);
}

#[test]
fn attempts_stop_at_their_maximum() {
    let mut p = PeerInfo::new(s(A), 0);
    p.increment_attempts();
    assert_eq!(p.connection_attempts, 1);
    p.connection_attempts = u32::MAX;
    p.increment_attempts();
    assert_eq!(p.connection_attempts, u32::MAX);
}

#[test]
fn compatibility_is_recognised_by_prefix() {
    let mainnet = "/teranode/bitcoin/mainnet/";
    assert!(supports_teranode_protocol(&vec![s("/ipfs/id/1.0.0"), s("/teranode/bitcoin/mainnet/2.0.0")], mainnet));
    assert!(!supports_teranode_protocol(&vec![s("/ipfs/id/1.0.0"), s("/teranode/bitcoin/testnet/1.0.0")], mainnet));
    assert!(!supports_teranode_protocol(&vec![s("/ipfs/id/1.0.0"), s("/teranode/bitcoin/mainnet")], mainnet));
    assert!(!supports_teranode_protocol(&vec![], mainnet));
}

#[test]
fn peer_of_another_network_is_not_compatible() {
    let mut r = PeerRegistry::new();
    let mainnet = s("/teranode/bitcoin/mainnet/");
    r.handle_event(identified(A, vec!["/teranode/bitcoin/testnet/1.0.0"], vec![]), 1, &mainnet);
    r.handle_event(identified(B, vec!["/teranode/bitcoin/mainnet/1.1.0"], vec![]), 2, &mainnet);
    let peers = r.get_peers();
    assert!(!peers[0].supports_teranode);
    assert!(peers[1].supports_teranode);
}

#[test]
fn compatibility_once_set_survives_later_events() {
    let mut r = PeerRegistry::new();
    r.handle_event(identified(A, vec!["/teranode/bitcoin/testnet/1.0.0"], vec![]), 1, &s(TESTNET));
    assert!(r.get_teranode_peers().iter().any(|p| p.peer_id == A));
    r.handle_event(identified(A, vec!["/ipfs/kad/1.0.0"], vec![]), 2, &s(TESTNET));
    r.handle_event(NetworkEvent::ConnectionClosed { peer: s(A) }, 3, &s(TESTNET));
    r.handle_event(NetworkEvent::UnroutablePeer { peer: s(A) }, 4, &s(TESTNET));
    r.handle_event(NetworkEvent::OutgoingConnectionError { peer: Some(s(A)) }, 5, &s(TESTNET));
    let p = r.get_peer(&s(A)).unwrap();
    assert!(p.supports_teranode);
    assert_eq!(p.connection_attempts, 1);
    assert_eq!(r.get_teranode_peers().len(), 1);
}

#[test]
fn events_update_one_record_per_peer() {
    let mut r = PeerRegistry::new();
    r.handle_event(NetworkEvent::RoutingUpdated { peer: s(A) }, 1, &s(TESTNET));
    r.handle_event(NetworkEvent::RoutablePeer { peer: s(A), address: s("/ip4/1.1.1.1/tcp/1") }, 2, &s(TESTNET));
    r.handle_event(NetworkEvent::LocalPeerDiscovered { peer: s(B), address: s("/ip4/10.0.0.2/tcp/9005") }, 3, &s(TESTNET));
    r.handle_event(NetworkEvent::ConnectionEstablished { peer: s(A) }, 4, &s(TESTNET));
    r.handle_event(NetworkEvent::LocalPeerExpired { peer: s(B), address: s("/ip4/10.0.0.2/tcp/9005") }, 5, &s(TESTNET));
    r.handle_event(identified(A, vec![], vec!["/ip4/1.1.1.1/tcp/1", "/ip4/3.3.3.3/tcp/3"]), 6, &s(TESTNET));
    let peers = r.get_peers();
    assert_eq!(peers.len(), 2);
    assert_eq!(peers[0].peer_id, A);
    assert_eq!(peers[0].addresses, vec![s("/ip4/1.1.1.1/tcp/1"), s("/ip4/3.3.3.3/tcp/3")]);
    assert!(peers[0].connected);
    assert_eq!(peers[0].discovered_at, 1);
    assert_eq!(peers[0].last_seen, 6);
    assert_eq!(peers[0].agent_version.as_deref(), Some("teranode-rust/0.1.0"));
    assert!(!peers[0].supports_teranode);
    assert_eq!(peers[1].peer_id, B);
    assert!(!peers[1].connected);
    assert_eq!(peers[1].last_seen, 3);
    let connected = r.get_connected_peers();
    assert_eq!(connected.len(), 1);
    assert_eq!(connected[0].peer_id, A);
}

#[test]
fn events_about_unknown_peers_create_nothing_unless_they_observe() {
    let mut r = PeerRegistry::new();
    r.handle_event(NetworkEvent::ConnectionClosed { peer: s(A) }, 1, &s(TESTNET));
    r.handle_event(NetworkEvent::OutgoingConnectionError { peer: Some(s(A)) }, 2, &s(TESTNET));
    r.handle_event(NetworkEvent::OutgoingConnectionError { peer: None }, 3, &s(TESTNET));
    r.handle_event(NetworkEvent::UnroutablePeer { peer: s(A) }, 4, &s(TESTNET));
    assert!(r.get_peers().is_empty());
    assert!(matches!(r.get_peer(&s(A)), Err(P2PError::PeerNotFound(_))));
}

#[test]
fn messages_are_forwarded_unchanged() {
    let mut r = PeerRegistry::new();
    let m = r
        .handle_event(
            NetworkEvent::Message { topic: s("/teranode/bitcoin/testnet/1.0.0/blocks"), data: vec![1, 2, 3], source: s(B) },
            1,
            &s(TESTNET),
        )
        .unwrap();
    assert_eq!(m.topic, "/teranode/bitcoin/testnet/1.0.0/blocks");
    assert_eq!(m.data, vec![1, 2, 3]);
    assert_eq!(m.source, B);
    assert!(r.handle_event(NetworkEvent::RoutingUpdated { peer: s(A) }, 2, &s(TESTNET)).is_none());
}

#[test]
fn subscriber_count_follows_subscriptions() {
    let t = s("/teranode/bitcoin/testnet/1.0.0/blocks");
    let u = s("/teranode/bitcoin/testnet/1.0.0/subtrees");
    let mut r = PeerRegistry::new();
    assert_eq!(r.topic_peer_count(&t), 0);
    r.handle_event(NetworkEvent::Unsubscribed { peer: s(A), topic: t.clone() }, 1, &s(TESTNET));
    assert_eq!(r.topic_peer_count(&t), 0);
    r.handle_event(NetworkEvent::Subscribed { peer: s(A), topic: t.clone() }, 2, &s(TESTNET));
    r.handle_event(NetworkEvent::Subscribed { peer: s(A), topic: t.clone() }, 3, &s(TESTNET));
    r.handle_event(NetworkEvent::Subscribed { peer: s(B), topic: t.clone() }, 4, &s(TESTNET));
    r.handle_event(NetworkEvent::Subscribed { peer: s(B), topic: u.clone() }, 5, &s(TESTNET));
    assert_eq!(r.topic_peer_count(&t), 2);
    assert_eq!(r.topic_peer_count(&u), 1);
    r.handle_event(NetworkEvent::Unsubscribed { peer: s(A), topic: t.clone() }, 6, &s(TESTNET));
    assert_eq!(r.topic_peer_count(&t), 1);
    assert_eq!(r.topic_peers(&t), vec![s(B)]);
    r.handle_event(NetworkEvent::Unsubscribed { peer: s(B), topic: t.clone() }, 7, &s(TESTNET));
    r.handle_event(NetworkEvent::Unsubscribed { peer: s(B), topic: t.clone() }, 8, &s(TESTNET));
    assert_eq!(r.topic_peer_count(&t), 0);
    assert!(r.topic_peers(&t).is_empty());
    assert_eq!(r.topic_peers(&u), vec![s(B)]);
}

fn running_client(network: &str) -> P2PClient {
    let config = P2PConfig::new(network.to_string()).with_listen_addresses(vec![s("/ip4/0.0.0.0/tcp/0")]);
    let (mut c, _) = P2PClient::new(config, None).unwrap();
    assert!(c.start().is_some());
    assert!(c.begin_run());
    c
}

#[test]
fn client_lifecycle() {
    let plain = P2PConfig::new("regtest".to_string());
    let (key, _) = load_or_generate_keypair(&plain, None).unwrap();
    let config = P2PConfig::new("regtest".to_string())
        .with_listen_addresses(vec![s("/ip4/0.0.0.0/tcp/9005")])
        .with_private_key_hex(keypair_to_hex(&key));
    let (mut c, persist) = P2PClient::new(config, None).unwrap();
    assert!(persist.is_none());
    assert_eq!(c.local_peer_id(), &key.peer_id());
    assert!(!c.is_running());
    assert!(!c.begin_run());
    assert!(c.handle_event(NetworkEvent::ConnectionEstablished { peer: s(A) }, 1).is_none());
    assert!(c.get_peers().is_empty());
    let plan = c.start().unwrap();
    assert_eq!(plan.listen_addresses, vec![s("/ip4/0.0.0.0/tcp/9005")]);
    assert!(plan.bootstrap);
    assert!(c.start().is_none());
    assert!(c.begin_run());
    assert!(c.is_running());
    c.handle_event(NetworkEvent::ConnectionEstablished { peer: s(A) }, 2);
    assert_eq!(c.get_connected_peers().len(), 1);
    c.stop();
    assert!(!c.is_running());
    c.handle_event(NetworkEvent::ConnectionClosed { peer: s(A) }, 3);
    assert_eq!(c.get_connected_peers().len(), 1);
    assert!(!c.begin_run());
}

#[test]
fn start_without_seed_peers_does_not_bootstrap() {
    let mut config = P2PConfig::new("regtest".to_string());
    config.bootstrap_peers.clear();
    let (mut c, _) = P2PClient::new(config, None).unwrap();
    let plan = c.start().unwrap();
    assert!(!plan.bootstrap);
    assert!(plan.listen_addresses.is_empty());
}

#[test]
fn two_clients_discover_and_identify_each_other() {
    let mut a = running_client("testnet");
    let mut b = running_client("testnet");
    let id_a = a.local_peer_id().clone();
    let id_b = b.local_peer_id().clone();
    let proto = a.config().protocol_id();
    assert_eq!(proto, b.config().protocol_id());

    a.handle_event(NetworkEvent::LocalPeerDiscovered { peer: id_b.clone(), address: s("/ip4/192.168.1.3/tcp/9005") }, 10);
    b.handle_event(NetworkEvent::LocalPeerDiscovered { peer: id_a.clone(), address: s("/ip4/192.168.1.2/tcp/9005") }, 10);
    a.handle_event(NetworkEvent::ConnectionEstablished { peer: id_b.clone() }, 11);
    b.handle_event(NetworkEvent::ConnectionEstablished { peer: id_a.clone() }, 11);
    a.handle_event(identified(&id_b, vec!["/ipfs/id/1.0.0", &proto], vec!["/ip4/192.168.1.3/tcp/9005"]), 12);
    b.handle_event(identified(&id_a, vec!["/ipfs/id/1.0.0", &proto], vec!["/ip4/192.168.1.2/tcp/9005"]), 12);

    let seen_by_a = a.get_connected_peers();
    let seen_by_b = b.get_connected_peers();
    assert_eq!(seen_by_a.len(), 1);
    assert_eq!(seen_by_b.len(), 1);
    assert_eq!(seen_by_a[0].peer_id, id_b);
    assert_eq!(seen_by_b[0].peer_id, id_a);
    assert!(seen_by_a[0].supports_teranode);
    assert!(seen_by_b[0].supports_teranode);
    assert_eq!(seen_by_a[0].addresses, vec![s("/ip4/192.168.1.3/tcp/9005")]);
    assert_eq!(a.get_teranode_peers().len(), 1);
    assert_eq!(b.get_teranode_peers().len(), 1);
}

#[test]
fn client_construction_fails_on_bad_key_material() {
    let config = P2PConfig::new("regtest".to_string()).with_private_key_hex("zz".to_string());
    assert!(matches!(P2PClient::new(config, None), Err(P2PError::KeyDecode(_))));
    let config = P2PConfig::new("regtest".to_string())
        .with_key_file(std::path::PathBuf::from("/nonexistent/node.key"));
    assert!(matches!(P2PClient::new(config, Some(s("00"))), Err(P2PError::KeyDecode(_))));
}

#[test]
fn client_dispatch_uses_its_own_network() {
    let mut c = running_client("mainnet");
    c.handle_event(identified(A, vec!["/teranode/bitcoin/testnet/1.0.0"], vec![]), 1);
    c.handle_event(identified(B, vec!["/teranode/bitcoin/mainnet/1.0.0"], vec![]), 2);
    let compatible = c.get_teranode_peers();
    assert_eq!(compatible.len(), 1);
    assert_eq!(compatible[0].peer_id, B);
}

#[test]
fn identification_addresses_are_added_once() {
    let mut r = PeerRegistry::new();
    r.handle_event(NetworkEvent::RoutablePeer { peer: s(A), address: s("/ip4/1.1.1.1/tcp/1") }, 1, &s(TESTNET));
    r.handle_event(
        identified(A, vec![], vec!["/ip4/2.2.2.2/tcp/2", "/ip4/1.1.1.1/tcp/1", "/ip4/2.2.2.2/tcp/2"]),
        2,
        &s(TESTNET),
    );
    assert_eq!(r.get_peers()[0].addresses, vec![s("/ip4/1.1.1.1/tcp/1"), s("/ip4/2.2.2.2/tcp/2")]);
}
