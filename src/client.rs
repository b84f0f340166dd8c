//! Client lifecycle, event intake and consumer queries. The caller drives the network:
//! it binds what `start` returns and hands every observed event to `handle_event`.
use crate::config::{network_prefix, P2PConfig};
use crate::error::P2PError;
use crate::identity::{is_key_choice, load_or_generate_keypair, peer_id_of, NodeKey};
use crate::registry::{ids_distinct};
use crate::peer::peer_wf;
use libp2p_identity::Keypair;
use crate::peer::{PeerInfo, PeerView};
use crate::registry::{
    after_event, compatible_only, connected_only, forwarded, knows, subscribers_after, views,
    GossipMessage, NetworkEvent, PeerRegistry,
};
use vstd::prelude::*;

verus! {

/// Lifecycle of a client.
#[derive(Debug, Clone, Copy, PartialEq, Eq, Structural)]
pub enum ClientState {
    /// Constructed; nothing bound yet.
    Uninitialized,
    /// Listen addresses bound and, with seed peers, the first bootstrap issued.
    Listening,
    /// Processing events.
    Running,
    /// Stopped; no further events are processed.
    Stopped,
}

/// What the transport must do to start: bind these addresses, and bootstrap the
/// distributed hash table when `bootstrap` is set.
#[derive(Debug, Clone)]
pub struct StartPlan {
    pub listen_addresses: Vec<String>,
    pub bootstrap: bool,
}

/// A client: its configuration, its own identifier, the peer registry and where it is
/// in its lifecycle.
pub struct P2PClient {
    config: P2PConfig,
    key: NodeKey,
    local_peer_id: String,
    registry: PeerRegistry,
    state: ClientState,
}

impl P2PClient {
    /// Where the client is in its lifecycle.
    pub closed spec fn lifecycle(&self) -> ClientState {
        self.state
    }

    /// The client's configuration.
    pub closed spec fn configuration(&self) -> P2PConfig {
        self.config
    }

    /// The client's own identifier.
    pub closed spec fn own_id(&self) -> Seq<char> {
        self.local_peer_id@
    }

    /// The client's key.
    pub closed spec fn node_key(&self) -> NodeKey {
        self.key
    }

    /// The peer registry.
    pub closed spec fn peers(&self) -> PeerRegistry {
        self.registry
    }

    /// The registry is well formed.
    pub closed spec fn wf(&self) -> bool {
        self.registry.wf()
    }

    /// A client for `config`, not yet started and knowing no peers. Its key is chosen as
    /// `load_or_generate_keypair` chooses it, `stored` being the key file's contents when
    /// a key file is configured and was found; key material that does not decode fails
    /// with `KeyDecode` and no client is made. Its own identifier is the one its key
    /// derives. The second component is the hex text to write to the key file, if any.
    pub fn new(config: P2PConfig, stored: Option<String>) -> (r: Result<
        (Self, Option<String>),
        P2PError,
    >)
        ensures
            is_key_choice(
                config,
                stored,
                match r {
                    Ok((c, p)) => Ok((c.node_key(), p)),
                    Err(e) => Err(e),
                },
            ),
            r matches Ok((c, _)) ==> {
                &&& c.wf()
                &&& c.lifecycle() == ClientState::Uninitialized
                &&& c.configuration() == config
                &&& c.own_id() == peer_id_of(c.node_key().encoding())
                &&& c.peers().records() == Seq::<PeerView>::empty()
                &&& forall|t: Seq<char>| #[trigger] c.peers().subscribers(t) == Set::<Seq<char>>::empty()
            },
    {
        match load_or_generate_keypair(&config, stored) {
            Ok((key, persist)) => {
                let local_peer_id = key.peer_id();
                Ok(
                    (
                        P2PClient {
                            config,
                            key,
                            local_peer_id,
                            registry: PeerRegistry::new(),
                            state: ClientState::Uninitialized,
                        },
                        persist,
                    ),
                )
            },
            Err(e) => Err(e),
        }
    }

    /// The keypair, for the transport's handshake and message signing.
    pub fn keypair(&self) -> &Keypair {
        self.key.keypair()
    }

    /// Starts a client that was never started: it is then listening, and the plan says
    /// which addresses to bind and whether to bootstrap (exactly when seed peers are
    /// configured). A client that was already started is left as it is and gets `None`.
    pub fn start(&mut self) -> (r: Option<StartPlan>)
        ensures
            final(self).wf() == old(self).wf(),
            final(self).configuration() == old(self).configuration(),
            final(self).own_id() == old(self).own_id(),
            final(self).peers() == old(self).peers(),
            old(self).lifecycle() == ClientState::Uninitialized ==> {
                &&& final(self).lifecycle() == ClientState::Listening
                &&& r matches Some(plan)
                &&& plan.listen_addresses@ == old(self).configuration().listen_addresses@
                &&& plan.bootstrap == (old(self).configuration().bootstrap_peers@.len() > 0)
            },
            old(self).lifecycle() != ClientState::Uninitialized ==> final(self).lifecycle() == old(
                self,
            ).lifecycle() && r is None,
    {
        if self.state != ClientState::Uninitialized {
            return None;
        }
        self.state = ClientState::Listening;
        let listen_addresses = self.config.listen_addresses.clone();
        proof {
            assert(listen_addresses@ =~= self.config.listen_addresses@);
        }
        Some(StartPlan { listen_addresses, bootstrap: self.config.bootstrap_peers.len() > 0 })
    }

    /// Enters the event loop: a listening client is then running. Returns whether it
    /// did; in any other state nothing changes.
    pub fn begin_run(&mut self) -> (r: bool)
        ensures
            r == (old(self).lifecycle() == ClientState::Listening),
            final(self).lifecycle() == if r {
                ClientState::Running
            } else {
                old(self).lifecycle()
            },
            final(self).wf() == old(self).wf(),
            final(self).configuration() == old(self).configuration(),
            final(self).own_id() == old(self).own_id(),
            final(self).peers() == old(self).peers(),
    {
        if self.state == ClientState::Listening {
            self.state = ClientState::Running;
            true
        } else {
            false
        }
    }

    /// Stops the client, from any state; no further events are processed.
    pub fn stop(&mut self)
        ensures
            final(self).lifecycle() == ClientState::Stopped,
            final(self).wf() == old(self).wf(),
            final(self).configuration() == old(self).configuration(),
            final(self).own_id() == old(self).own_id(),
            final(self).peers() == old(self).peers(),
    {
        self.state = ClientState::Stopped;
    }

    /// Whether the client is processing events.
    pub fn is_running(&self) -> (r: bool)
        ensures
            r == (self.lifecycle() == ClientState::Running),
    {
        self.state == ClientState::Running
    }

    /// Processes one event observed at `now` while running, as the registry dispatches
    /// it, returning the message for consumers if any. In any other state the event is
    /// dropped and nothing changes.
    pub fn handle_event(&mut self, event: NetworkEvent, now: u64) -> (r: Option<GossipMessage>)
        requires
            old(self).wf(),
        ensures
            final(self).wf(),
            final(self).lifecycle() == old(self).lifecycle(),
            final(self).configuration() == old(self).configuration(),
            final(self).own_id() == old(self).own_id(),
            old(self).lifecycle() == ClientState::Running ==> {
                &&& final(self).peers().records() == after_event(
                    old(self).peers().records(),
                    event,
                    now,
                    network_prefix(old(self).configuration().network@),
                )
                &&& forall|t: Seq<char>| #[trigger] final(self).peers().subscribers(t)
                    == subscribers_after(old(self).peers().subscribers(t), event, t)
                &&& forwarded(event, r)
            },
            old(self).lifecycle() != ClientState::Running ==> final(self).peers() == old(
                self,
            ).peers() && r is None,
    {
        if self.state == ClientState::Running {
            let prefix = self.config.network_prefix();
            self.registry.handle_event(event, now, &prefix)
        } else {
            None
        }
    }

    /// The client's own identifier.
    pub fn local_peer_id(&self) -> (r: &String)
        ensures
            r@ == self.own_id(),
    {
        &self.local_peer_id
    }

    /// The client's configuration.
    pub fn config(&self) -> (r: &P2PConfig)
        ensures
            *r == self.configuration(),
    {
        &self.config
    }

    /// Copies of all peer records.
    pub fn get_peers(&self) -> (r: Vec<PeerInfo>)
        requires
            self.wf(),
        ensures
            views(r@) == self.peers().records(),
            ids_distinct(views(r@)),
            forall|i: int| 0 <= i < views(r@).len() ==> peer_wf(#[trigger] views(r@)[i]),
    {
        self.registry.get_peers()
    }

    /// Copies of the records of connected peers.
    pub fn get_connected_peers(&self) -> (r: Vec<PeerInfo>)
        ensures
            views(r@) == connected_only(self.peers().records()),
    {
        self.registry.get_connected_peers()
    }

    /// Copies of the records of peers found compatible.
    pub fn get_teranode_peers(&self) -> (r: Vec<PeerInfo>)
        ensures
            views(r@) == compatible_only(self.peers().records()),
    {
        self.registry.get_teranode_peers()
    }

    /// A copy of the record of `id`, or `PeerNotFound`.
    pub fn get_peer(&self, id: &String) -> (r: Result<PeerInfo, P2PError>)
        ensures
            r.is_ok() == knows(self.peers().records(), id@),
            r matches Ok(p) ==> p@.peer_id == id@ && self.peers().records().contains(p@),
            r matches Err(e) ==> e is PeerNotFound,
    {
        self.registry.get_peer(id)
    }

    /// How many peers are subscribed to the fully qualified topic `topic`.
    pub fn get_topic_peer_count(&self, topic: &String) -> (r: usize)
        requires
            self.wf(),
        ensures
            self.peers().subscribers(topic@).finite(),
            r == self.peers().subscribers(topic@).len(),
    {
        self.registry.topic_peer_count(topic)
    }

    /// The peers subscribed to the fully qualified topic `topic`, each once.
    pub fn get_topic_peers(&self, topic: &String) -> (r: Vec<String>)
        requires
            self.wf(),
        ensures
            r.deep_view().no_duplicates(),
            r.deep_view().to_set() == self.peers().subscribers(topic@),
    {
        self.registry.topic_peers(topic)
    }
}

} // verus!
