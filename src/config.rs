//! Node configuration and the values derived from it.
use std::path::PathBuf;
use vstd::prelude::*;

verus! {

/// A filesystem path, carried through the configuration to the code that reads and
/// writes the key file.
#[verifier::external_type_specification]
#[verifier::external_body]
pub struct ExPathBuf(PathBuf);

/// How the node takes part in the distributed hash table.
#[derive(Debug, Clone, Copy, PartialEq, Eq, Structural)]
pub enum KadMode {
    /// Answers queries and may be handed out as a routing-table entry.
    Server,
    /// Only issues queries and is never advertised.
    Client,
}

/// Configuration of a client. Addresses are multiaddresses in their text form.
#[derive(Debug, Clone)]
pub struct P2PConfig {
    /// Network namespace, such as "mainnet", "testnet" or "regtest".
    pub network: String,
    /// Protocol version, "1.0.0" unless set otherwise.
    pub protocol_version: String,
    /// Addresses to listen on.
    pub listen_addresses: Vec<String>,
    /// Seed peers, each address embedding the peer's identifier.
    pub bootstrap_peers: Vec<String>,
    /// Where the node's key is kept between runs.
    pub key_file: Option<PathBuf>,
    /// Hex-encoded Ed25519 keypair (32 secret bytes then 32 public bytes); takes
    /// precedence over `key_file`.
    pub private_key_hex: Option<String>,
    /// Whether peers on the local network segment are discovered by multicast.
    pub enable_mdns: bool,
    /// Distributed hash table mode.
    pub kad_mode: KadMode,
}

/// The prefix that every protocol identifier of this application starts with.
pub open spec fn application_prefix() -> Seq<char> {
    "/teranode/bitcoin/"@
}

/// The prefix of the protocol identifiers of a network, any version: `/teranode/bitcoin/<network>/`.
pub open spec fn network_prefix(network: Seq<char>) -> Seq<char> {
    application_prefix() + network + "/"@
}

/// The protocol identifier of a namespace and version: `/teranode/bitcoin/<network>/<version>`.
pub open spec fn protocol_id_of(network: Seq<char>, version: Seq<char>) -> Seq<char> {
    application_prefix() + network + "/"@ + version
}

/// The fully qualified name of a topic under a protocol identifier.
pub open spec fn topic_of(protocol_id: Seq<char>, topic: Seq<char>) -> Seq<char> {
    protocol_id + "/"@ + topic
}

/// The topics every client subscribes to.
pub open spec fn standard_topics() -> Seq<Seq<char>> {
    seq!["blocks"@, "subtrees"@, "rejected_tx"@, "node_status"@]
}

/// The public seed peers used when the caller supplies none: four DNS-based entries and
/// two direct-IP entries.
pub open spec fn default_bootstrap_addresses() -> Seq<Seq<char>> {
    seq![
        "/dnsaddr/bootstrap.libp2p.io/p2p/QmNnooDu7bfjPFoTZYxMNLWUQJyrVwtbZg5gBMjTezGAJN"@,
        "/dnsaddr/bootstrap.libp2p.io/p2p/QmQCU2EcMqAqQPR2i9bChDtGNJchTbq5TbXJJ16u19uLTa"@,
        "/dnsaddr/bootstrap.libp2p.io/p2p/QmbLHAnMoJPWSCR5Zhtx6BHJX9KiKNN6tpvbUcqanj75Nb"@,
        "/dnsaddr/bootstrap.libp2p.io/p2p/QmcZf59bWwK5XFi76CZX8cbJ4BhTzzA3gU1ZjYZcYW3dwt"@,
        "/ip4/104.131.131.82/tcp/4001/p2p/QmaCpDMGvV2BGHeYERUEnRQAwe3N8SzbUtfsmvsqQLuvuJ"@,
        "/ip4/104.131.131.82/udp/4001/quic/p2p/QmaCpDMGvV2BGHeYERUEnRQAwe3N8SzbUtfsmvsqQLuvuJ"@,
    ]
}

/// The identifier in the `/p2p/` component of the multiaddress whose text is `addr`; none
/// when the text does not parse or has no such component.
pub uninterp spec fn embedded_peer_id(addr: Seq<char>) -> Option<Seq<char>>;

/// Relies on libp2p's `Multiaddr` parsing and `Multiaddr::iter`: the text of the peer
/// identifier that the address embeds, if it parses and embeds one.
#[verifier::external_body]
fn peer_id_in_address(addr: &str) -> (r: Option<String>)
    ensures
        r is Some == embedded_peer_id(addr@) is Some,
        r matches Some(t) ==> embedded_peer_id(addr@) == Some(t@),
{
    addr.parse::<libp2p::Multiaddr>().ok().and_then(
        |a|
            a.iter().find_map(
                |p| match p {
                    libp2p::multiaddr::Protocol::P2p(id) => Some(id.to_string()),
                    _ => None,
                },
            ),
    )
}

/// The seed entries of a list of addresses, in order: each address that embeds a peer
/// identifier, paired with that identifier.
pub open spec fn seeds_of(addrs: Seq<Seq<char>>) -> Seq<(Seq<char>, Seq<char>)>
    decreases addrs.len(),
{
    if addrs.len() == 0 {
        Seq::empty()
    } else {
        match embedded_peer_id(addrs.last()) {
            Some(id) => seeds_of(addrs.drop_last()).push((id, addrs.last())),
            None => seeds_of(addrs.drop_last()),
        }
    }
}

/// The values of (identifier, address) pairs.
pub open spec fn pair_views(v: Seq<(String, String)>) -> Seq<(Seq<char>, Seq<char>)> {
    v.map_values(|p: (String, String)| (p.0@, p.1@))
}

/// The configuration of a namespace with every other setting at its default.
pub open spec fn is_default_for(c: P2PConfig, network: Seq<char>) -> bool {
    &&& c.network@ == network
    &&& c.protocol_version@ == "1.0.0"@
    &&& c.listen_addresses@.len() == 0
    &&& c.bootstrap_peers.deep_view() == default_bootstrap_addresses()
    &&& c.key_file is None
    &&& c.private_key_hex is None
    &&& c.enable_mdns
    &&& c.kad_mode == KadMode::Server
}

impl Default for P2PConfig {
    fn default() -> (r: Self)
        ensures
            is_default_for(r, "mainnet"@),
    {
        P2PConfig {
            network: String::from_str("mainnet"),
            protocol_version: String::from_str("1.0.0"),
            listen_addresses: Vec::new(),
            bootstrap_peers: P2PConfig::default_bootstrap_peers(),
            key_file: None,
            private_key_hex: None,
            enable_mdns: true,
            kad_mode: KadMode::Server,
        }
    }
}

impl P2PConfig {
    /// The public seed peers, in their text form.
    pub fn default_bootstrap_peers() -> (r: Vec<String>)
        ensures
            r.deep_view() == default_bootstrap_addresses(),
    {
        let mut r: Vec<String> = Vec::new();
        r.push(
            String::from_str(
                "/dnsaddr/bootstrap.libp2p.io/p2p/QmNnooDu7bfjPFoTZYxMNLWUQJyrVwtbZg5gBMjTezGAJN",
            ),
        );
        r.push(
            String::from_str(
                "/dnsaddr/bootstrap.libp2p.io/p2p/QmQCU2EcMqAqQPR2i9bChDtGNJchTbq5TbXJJ16u19uLTa",
            ),
        );
        r.push(
            String::from_str(
                "/dnsaddr/bootstrap.libp2p.io/p2p/QmbLHAnMoJPWSCR5Zhtx6BHJX9KiKNN6tpvbUcqanj75Nb",
            ),
        );
        r.push(
            String::from_str(
                "/dnsaddr/bootstrap.libp2p.io/p2p/QmcZf59bWwK5XFi76CZX8cbJ4BhTzzA3gU1ZjYZcYW3dwt",
            ),
        );
        r.push(
            String::from_str(
                "/ip4/104.131.131.82/tcp/4001/p2p/QmaCpDMGvV2BGHeYERUEnRQAwe3N8SzbUtfsmvsqQLuvuJ",
            ),
        );
        r.push(
            String::from_str(
                "/ip4/104.131.131.82/udp/4001/quic/p2p/QmaCpDMGvV2BGHeYERUEnRQAwe3N8SzbUtfsmvsqQLuvuJ",
            ),
        );
        assert(r.deep_view() =~= default_bootstrap_addresses());
        r
    }

    /// A configuration for `network` with every other setting at its default.
    pub fn new(network: String) -> (r: Self)
        ensures
            is_default_for(r, network@),
    {
        let d = P2PConfig::default();
        P2PConfig { network, ..d }
    }

    /// Replaces the listen addresses.
    pub fn with_listen_addresses(self, addrs: Vec<String>) -> (r: Self)
        ensures
            r == (P2PConfig { listen_addresses: addrs, ..self }),
    {
        P2PConfig { listen_addresses: addrs, ..self }
    }

    /// Supplies seed peers. An empty list keeps the public default seeds; a non-empty
    /// one replaces whatever was configured before.
    pub fn with_bootstrap_peers(self, peers: Vec<String>) -> (r: Self)
        ensures
            r == (P2PConfig { bootstrap_peers: r.bootstrap_peers, ..self }),
            peers@.len() == 0 ==> r.bootstrap_peers.deep_view() == default_bootstrap_addresses(),
            peers@.len() > 0 ==> r.bootstrap_peers == peers,
    {
        if peers.len() == 0 {
            P2PConfig { bootstrap_peers: P2PConfig::default_bootstrap_peers(), ..self }
        } else {
            P2PConfig { bootstrap_peers: peers, ..self }
        }
    }

    /// Sets the key file.
    pub fn with_key_file(self, path: PathBuf) -> (r: Self)
        ensures
            r == (P2PConfig { key_file: Some(path), ..self }),
    {
        P2PConfig { key_file: Some(path), ..self }
    }

    /// Sets the hex-encoded keypair.
    pub fn with_private_key_hex(self, hex: String) -> (r: Self)
        ensures
            r == (P2PConfig { private_key_hex: Some(hex), ..self }),
    {
        P2PConfig { private_key_hex: Some(hex), ..self }
    }

    /// Turns local-network discovery on or off.
    pub fn with_mdns(self, enable: bool) -> (r: Self)
        ensures
            r == (P2PConfig { enable_mdns: enable, ..self }),
    {
        P2PConfig { enable_mdns: enable, ..self }
    }

    /// Sets the distributed hash table mode.
    pub fn with_kad_mode(self, mode: KadMode) -> (r: Self)
        ensures
            r == (P2PConfig { kad_mode: mode, ..self }),
    {
        P2PConfig { kad_mode: mode, ..self }
    }

    /// The protocol identifier, `/teranode/bitcoin/<network>/<version>`.
    pub fn protocol_id(&self) -> (r: String)
        ensures
            r@ == protocol_id_of(self.network@, self.protocol_version@),
    {
        let mut r = String::from_str("/teranode/bitcoin/");
        r.append(self.network.as_str());
        r.append("/");
        r.append(self.protocol_version.as_str());
        r
    }

    /// The prefix shared by this network's protocol identifiers of every version.
    pub fn network_prefix(&self) -> (r: String)
        ensures
            r@ == network_prefix(self.network@),
    {
        let mut r = String::from_str("/teranode/bitcoin/");
        r.append(self.network.as_str());
        r.append("/");
        r
    }

    /// The seed peers to enter in the routing table before the first bootstrap: each
    /// configured seed address that embeds a peer identifier, with that identifier.
    pub fn bootstrap_seeds(&self) -> (r: Vec<(String, String)>)
        ensures
            pair_views(r@) == seeds_of(self.bootstrap_peers.deep_view()),
    {
        let ghost addrs = self.bootstrap_peers.deep_view();
        let n = self.bootstrap_peers.len();
        let mut r: Vec<(String, String)> = Vec::new();
        let mut i: usize = 0;
        while i < n
            invariant
                n == self.bootstrap_peers@.len(),
                addrs == self.bootstrap_peers.deep_view(),
                i <= n,
                pair_views(r@) == seeds_of(addrs.take(i as int)),
            decreases n - i,
        {
            let ghost prefix = addrs.take(i as int + 1);
            proof {
                assert(prefix.drop_last() =~= addrs.take(i as int));
                assert(prefix.last() == self.bootstrap_peers@[i as int]@);
            }
            let addr = &self.bootstrap_peers[i];
            match peer_id_in_address(addr.as_str()) {
                Some(id) => {
                    let ghost before = r@;
                    r.push((id, addr.clone()));
                    proof {
                        assert(pair_views(r@) =~= pair_views(before).push((id@, addr@)));
                    }
                },
                None => {},
            }
            i = i + 1;
        }
        proof {
            assert(addrs.take(n as int) =~= addrs);
        }
        r
    }

    /// The fully qualified name of `topic`: `<protocol id>/<topic>`.
    pub fn topic_name(&self, topic: &str) -> (r: String)
        ensures
            r@ == topic_of(protocol_id_of(self.network@, self.protocol_version@), topic@),
    {
        let mut r = self.protocol_id();
        r.append("/");
        r.append(topic);
        r
    }

    /// The fully qualified names of the topics every client subscribes to: block
    /// announcements, subtree announcements, rejected transactions and node status.
    pub fn subscription_topics(&self) -> (r: Vec<String>)
        ensures
            r@.len() == standard_topics().len(),
            forall|i: int|
                0 <= i < r@.len() ==> #[trigger] r@[i]@ == topic_of(
                    protocol_id_of(self.network@, self.protocol_version@),
                    standard_topics()[i],
                ),
    {
        let mut r: Vec<String> = Vec::new();
        r.push(self.topic_name("blocks"));
        r.push(self.topic_name("subtrees"));
        r.push(self.topic_name("rejected_tx"));
        r.push(self.topic_name("node_status"));
        r
    }
}

} // verus!
