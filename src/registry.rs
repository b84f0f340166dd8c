//! The peer registry: the one table of peer records and topic subscriptions, and the
//! dispatch of subsystem events into it.
use crate::error::P2PError;
use crate::peer::{
    address_added, attempt_counted, connection_set, fresh_peer, identified,
    lemma_addresses_stay_distinct, lemma_with_address_distinct, with_addresses,
    peer_wf, PeerInfo, PeerView,
};
use crate::text::{has_prefix, starts_with};
use vstd::prelude::*;

verus! {

/// An event of the transport, the distributed hash table, local discovery,
/// identification or topic messaging, reduced to plain values. Identifiers and
/// addresses are in their text form.
#[allow(inconsistent_fields)]
#[derive(Debug, Clone)]
pub enum NetworkEvent {
    /// A connection to `peer` was established.
    ConnectionEstablished { peer: String },
    /// The connection to `peer` was closed.
    ConnectionClosed { peer: String },
    /// An outbound connection failed; `peer` is the target when it is known.
    OutgoingConnectionError { peer: Option<String> },
    /// The routing table inserted or updated `peer`.
    RoutingUpdated { peer: String },
    /// `peer` is routable at `address`.
    RoutablePeer { peer: String, address: String },
    /// `peer` became unroutable; informational only.
    UnroutablePeer { peer: String },
    /// An identification exchange with `peer` completed.
    Identified {
        peer: String,
        agent_version: String,
        protocol_version: String,
        protocols: Vec<String>,
        listen_addrs: Vec<String>,
    },
    /// Local discovery saw `peer` at `address`.
    LocalPeerDiscovered { peer: String, address: String },
    /// A local announcement of `peer` at `address` lapsed; informational only.
    LocalPeerExpired { peer: String, address: String },
    /// A validated message arrived on `topic` from `source`.
    Message { topic: String, data: Vec<u8>, source: String },
    /// `peer` subscribed to `topic`.
    Subscribed { peer: String, topic: String },
    /// `peer` unsubscribed from `topic`.
    Unsubscribed { peer: String, topic: String },
}

/// A topic message as handed to consumers.
#[derive(Debug, Clone)]
pub struct GossipMessage {
    pub topic: String,
    pub data: Vec<u8>,
    pub source: String,
}

/// Whether a list of protocol identifiers names this node's protocol, `prefix` being the
/// application prefix followed by the node's network and `/`: any version counts, another
/// network does not.
pub open spec fn speaks_application(protocols: Seq<Seq<char>>, prefix: Seq<char>) -> bool {
    exists|i: int| 0 <= i < protocols.len() && has_prefix(#[trigger] protocols[i], prefix)
}

/// A record after each of `adds` was observed as an address at `now`.
pub open spec fn addresses_added(p: PeerView, adds: Seq<Seq<char>>, now: u64) -> PeerView
    decreases adds.len(),
{
    if adds.len() == 0 {
        p
    } else {
        address_added(addresses_added(p, adds.drop_last(), now), adds.last(), now)
    }
}

/// The peer whose record an event concerns, if any.
pub open spec fn event_peer(e: NetworkEvent) -> Option<Seq<char>> {
    match e {
        NetworkEvent::ConnectionEstablished { peer } => Some(peer@),
        NetworkEvent::ConnectionClosed { peer } => Some(peer@),
        NetworkEvent::OutgoingConnectionError { peer: Some(peer) } => Some(peer@),
        NetworkEvent::RoutingUpdated { peer } => Some(peer@),
        NetworkEvent::RoutablePeer { peer, .. } => Some(peer@),
        NetworkEvent::Identified { peer, .. } => Some(peer@),
        NetworkEvent::LocalPeerDiscovered { peer, .. } => Some(peer@),
        _ => None,
    }
}

/// Whether an event creates the record of its peer when there is none yet.
pub open spec fn event_observes(e: NetworkEvent) -> bool {
    match e {
        NetworkEvent::ConnectionEstablished { .. } => true,
        NetworkEvent::RoutingUpdated { .. } => true,
        NetworkEvent::RoutablePeer { .. } => true,
        NetworkEvent::Identified { .. } => true,
        NetworkEvent::LocalPeerDiscovered { .. } => true,
        _ => false,
    }
}

/// What an event does to the record of its peer; `prefix` is the node's protocol prefix.
pub open spec fn event_change(p: PeerView, e: NetworkEvent, now: u64, prefix: Seq<char>) -> PeerView {
    match e {
        NetworkEvent::ConnectionEstablished { .. } => connection_set(p, true, now),
        NetworkEvent::ConnectionClosed { .. } => connection_set(p, false, now),
        NetworkEvent::OutgoingConnectionError { .. } => attempt_counted(p),
        NetworkEvent::RoutablePeer { address, .. } => address_added(p, address@, now),
        NetworkEvent::LocalPeerDiscovered { address, .. } => address_added(p, address@, now),
        NetworkEvent::Identified {
            agent_version,
            protocol_version,
            protocols,
            listen_addrs,
            ..
        } => addresses_added(
            identified(
                p,
                agent_version@,
                protocol_version@,
                speaks_application(protocols.deep_view(), prefix),
                now,
            ),
            listen_addrs.deep_view(),
            now,
        ),
        _ => p,
    }
}

/// Whether some record has identifier `id`.
pub open spec fn knows(ps: Seq<PeerView>, id: Seq<char>) -> bool {
    exists|i: int| 0 <= i < ps.len() && (#[trigger] ps[i]).peer_id == id
}

/// No two records share an identifier.
pub open spec fn ids_distinct(ps: Seq<PeerView>) -> bool {
    forall|i: int, j: int| 0 <= i < j < ps.len() ==> ps[i].peer_id != ps[j].peer_id
}

/// The records once `id` has been observed at `now`: a fresh record is appended when
/// none has that identifier.
pub open spec fn observed(ps: Seq<PeerView>, id: Seq<char>, now: u64) -> Seq<PeerView> {
    if knows(ps, id) {
        ps
    } else {
        ps.push(fresh_peer(id, now))
    }
}

/// The records with `e` applied to the one whose identifier is `id`.
pub open spec fn changed(ps: Seq<PeerView>, id: Seq<char>, e: NetworkEvent, now: u64, prefix: Seq<char>) -> Seq<
    PeerView,
> {
    ps.map_values(|p: PeerView| if p.peer_id == id { event_change(p, e, now, prefix) } else { p })
}

/// The records after an event at `now`.
pub open spec fn after_event(ps: Seq<PeerView>, e: NetworkEvent, now: u64, prefix: Seq<char>) -> Seq<PeerView> {
    match event_peer(e) {
        None => ps,
        Some(id) => changed(if event_observes(e) { observed(ps, id, now) } else { ps }, id, e, now, prefix),
    }
}

/// The message an event hands to consumers: the topic message itself, and nothing for
/// any other event.
pub open spec fn forwarded(e: NetworkEvent, r: Option<GossipMessage>) -> bool {
    match e {
        NetworkEvent::Message { topic, data, source } => r matches Some(m) && m.topic@ == topic@
            && m.data@ == data@ && m.source@ == source@,
        _ => r is None,
    }
}

/// Whether a peer speaks this node's protocol, judged by the protocol identifiers it
/// advertised: one of them starts with `prefix`, the node's `/teranode/bitcoin/<network>/`.
pub fn supports_teranode_protocol(protocols: &Vec<String>, prefix: &str) -> (r: bool)
    ensures
        r == speaks_application(protocols.deep_view(), prefix@),
{
    let n = protocols.len();
    let mut i: usize = 0;
    while i < n
        invariant
            n == protocols@.len(),
            i <= n,
            forall|j: int| 0 <= j < i ==> !has_prefix(#[trigger] protocols@[j]@, prefix@),
        decreases n - i,
    {
        if starts_with(protocols[i].as_str(), prefix) {
            assert(protocols.deep_view()[i as int] == protocols@[i as int]@);
            return true;
        }
        i = i + 1;
    }
    proof {
        assert forall|j: int| 0 <= j < n implies !has_prefix(
            #[trigger] protocols.deep_view()[j],
            prefix@,
        ) by {
            assert(protocols.deep_view()[j] == protocols@[j]@);
        }
    }
    false
}

/// Observing addresses keeps a record's identifier and compatibility, and keeps a
/// well-formed record well formed.
proof fn lemma_addresses_added(p: PeerView, adds: Seq<Seq<char>>, now: u64)
    ensures
        addresses_added(p, adds, now).peer_id == p.peer_id,
        addresses_added(p, adds, now).supports_teranode == p.supports_teranode,
        peer_wf(p) ==> peer_wf(addresses_added(p, adds, now)),
    decreases adds.len(),
{
    if adds.len() > 0 {
        lemma_addresses_added(p, adds.drop_last(), now);
        let q = addresses_added(p, adds.drop_last(), now);
        if peer_wf(q) {
            lemma_with_address_distinct(q.addresses, adds.last());
        }
    }
}

/// Observing a list of addresses changes a record's addresses as adding each in turn
/// does: however the list repeats itself or known addresses, a record without repeated
/// addresses keeps none, and it ends with its old addresses and the listed ones.
pub proof fn lemma_addresses_added_distinct(p: PeerView, adds: Seq<Seq<char>>, now: u64)
    requires
        p.addresses.no_duplicates(),
    ensures
        addresses_added(p, adds, now).addresses == with_addresses(p.addresses, adds),
        addresses_added(p, adds, now).addresses.no_duplicates(),
        forall|a: Seq<char>|
            #[trigger] addresses_added(p, adds, now).addresses.contains(a) <==> p.addresses.contains(a)
                || adds.contains(a),
    decreases adds.len(),
{
    lemma_addresses_match(p, adds, now);
    lemma_addresses_stay_distinct(p.addresses, adds);
}

/// `addresses_added` changes addresses as `with_addresses` does.
proof fn lemma_addresses_match(p: PeerView, adds: Seq<Seq<char>>, now: u64)
    ensures
        addresses_added(p, adds, now).addresses == with_addresses(p.addresses, adds),
    decreases adds.len(),
{
    if adds.len() > 0 {
        lemma_addresses_match(p, adds.drop_last(), now);
    }
}

/// An event keeps the identifier of the record it changes, never clears its
/// compatibility, and keeps a well-formed record well formed.
pub proof fn lemma_event_change(p: PeerView, e: NetworkEvent, now: u64, prefix: Seq<char>)
    ensures
        event_change(p, e, now, prefix).peer_id == p.peer_id,
        p.supports_teranode ==> event_change(p, e, now, prefix).supports_teranode,
        peer_wf(p) ==> peer_wf(event_change(p, e, now, prefix)),
{
    match e {
        NetworkEvent::Identified { agent_version, protocol_version, protocols, listen_addrs, .. } => {
            let q = identified(p, agent_version@, protocol_version@, speaks_application(protocols.deep_view(), prefix), now);
            lemma_addresses_added(q, listen_addrs.deep_view(), now);
        },
        NetworkEvent::RoutablePeer { address, .. } => {
            if peer_wf(p) {
                lemma_with_address_distinct(p.addresses, address@);
            }
        },
        NetworkEvent::LocalPeerDiscovered { address, .. } => {
            if peer_wf(p) {
                lemma_with_address_distinct(p.addresses, address@);
            }
        },
        _ => {},
    }
}

/// Applying an event to the record at position `i` is replacing that record.
proof fn lemma_changed_at(ps: Seq<PeerView>, i: int, e: NetworkEvent, now: u64, prefix: Seq<char>)
    requires
        ids_distinct(ps),
        0 <= i < ps.len(),
    ensures
        changed(ps, ps[i].peer_id, e, now, prefix) == ps.update(i, event_change(ps[i], e, now, prefix)),
{
    assert(changed(ps, ps[i].peer_id, e, now, prefix) =~= ps.update(i, event_change(ps[i], e, now, prefix)));
}

/// Applying an event to an identifier that no record has changes nothing.
proof fn lemma_changed_absent(ps: Seq<PeerView>, id: Seq<char>, e: NetworkEvent, now: u64, prefix: Seq<char>)
    requires
        !knows(ps, id),
    ensures
        changed(ps, id, e, now, prefix) == ps,
{
    assert forall|j: int| 0 <= j < ps.len() implies #[trigger] changed(ps, id, e, now, prefix)[j] == ps[j] by {
        assert(ps[j].peer_id != id);
    }
    assert(changed(ps, id, e, now, prefix) =~= ps);
}

/// The registry's records after the record at `i` was replaced by the event's change
/// are the records after the event, and are still well formed.
proof fn lemma_replaced(mid: Seq<PeerView>, after: Seq<PeerView>, i: int, e: NetworkEvent, now: u64, prefix: Seq<char>)
    requires
        ids_distinct(mid),
        forall|j: int| 0 <= j < mid.len() ==> peer_wf(#[trigger] mid[j]),
        0 <= i < mid.len(),
        after == mid.update(i, event_change(mid[i], e, now, prefix)),
    ensures
        after == changed(mid, mid[i].peer_id, e, now, prefix),
        ids_distinct(after),
        forall|j: int| 0 <= j < after.len() ==> peer_wf(#[trigger] after[j]),
{
    lemma_changed_at(mid, i, e, now, prefix);
    lemma_event_change(mid[i], e, now, prefix);
    assert forall|j: int| 0 <= j < after.len() implies peer_wf(#[trigger] after[j]) by {
        if j != i {
            assert(after[j] == mid[j]);
        }
    }
    assert forall|x: int, y: int| 0 <= x < y < after.len() implies after[x].peer_id != after[y].peer_id by {
        assert(mid[x].peer_id != mid[y].peer_id);
    }
}

/// The values of a list of records.
pub open spec fn views(ps: Seq<PeerInfo>) -> Seq<PeerView> {
    ps.map_values(|p: PeerInfo| p@)
}

/// The connected records, in order.
pub open spec fn connected_only(ps: Seq<PeerView>) -> Seq<PeerView>
    decreases ps.len(),
{
    if ps.len() == 0 {
        ps
    } else if ps.last().connected {
        connected_only(ps.drop_last()).push(ps.last())
    } else {
        connected_only(ps.drop_last())
    }
}

/// The records of peers found compatible, in order.
pub open spec fn compatible_only(ps: Seq<PeerView>) -> Seq<PeerView>
    decreases ps.len(),
{
    if ps.len() == 0 {
        ps
    } else if ps.last().supports_teranode {
        compatible_only(ps.drop_last()).push(ps.last())
    } else {
        compatible_only(ps.drop_last())
    }
}

/// The subscribers of `topic` after an event: a subscription adds the peer, an
/// unsubscription removes it, anything else leaves them as they were.
pub open spec fn subscribers_after(s: Set<Seq<char>>, e: NetworkEvent, topic: Seq<char>) -> Set<
    Seq<char>,
> {
    match e {
        NetworkEvent::Subscribed { peer, topic: t } => if t@ == topic {
            s.insert(peer@)
        } else {
            s
        },
        NetworkEvent::Unsubscribed { peer, topic: t } => if t@ == topic {
            s.remove(peer@)
        } else {
            s
        },
        _ => s,
    }
}

/// The peers subscribed to one topic.
struct TopicPeers {
    topic: String,
    peers: Vec<String>,
}

/// The records after a sequence of events, each paired with the time it was observed,
/// at a node whose protocol prefix is `prefix`.
pub open spec fn after_events(
    ps: Seq<PeerView>,
    events: Seq<(NetworkEvent, u64)>,
    prefix: Seq<char>,
) -> Seq<PeerView>
    decreases events.len(),
{
    if events.len() == 0 {
        ps
    } else {
        after_event(after_events(ps, events.drop_last(), prefix), events.last().0, events.last().1, prefix)
    }
}

/// One event keeps every record at its position with its identifier, and never clears
/// compatibility.
proof fn lemma_event_keeps_compatibility(ps: Seq<PeerView>, e: NetworkEvent, now: u64, prefix: Seq<char>, i: int)
    requires
        0 <= i < ps.len(),
    ensures
        i < after_event(ps, e, now, prefix).len(),
        after_event(ps, e, now, prefix)[i].peer_id == ps[i].peer_id,
        ps[i].supports_teranode ==> after_event(ps, e, now, prefix)[i].supports_teranode,
{
    lemma_event_change(ps[i], e, now, prefix);
}

/// Once a peer is found compatible, no later event makes it incompatible: whatever
/// events follow, its record keeps its position and identifier and stays compatible.
pub proof fn lemma_compatibility_is_sticky(
    ps: Seq<PeerView>,
    events: Seq<(NetworkEvent, u64)>,
    prefix: Seq<char>,
    i: int,
)
    requires
        0 <= i < ps.len(),
        ps[i].supports_teranode,
    ensures
        i < after_events(ps, events, prefix).len(),
        after_events(ps, events, prefix)[i].peer_id == ps[i].peer_id,
        after_events(ps, events, prefix)[i].supports_teranode,
    decreases events.len(),
{
    if events.len() > 0 {
        lemma_compatibility_is_sticky(ps, events.drop_last(), prefix, i);
        lemma_event_keeps_compatibility(
            after_events(ps, events.drop_last(), prefix),
            events.last().0,
            events.last().1,
            prefix,
            i,
        );
    }
}

/// The subscribers of `topic` after a sequence of events, starting from `s`.
pub open spec fn subscribers_after_events(
    s: Set<Seq<char>>,
    events: Seq<NetworkEvent>,
    topic: Seq<char>,
) -> Set<Seq<char>>
    decreases events.len(),
{
    if events.len() == 0 {
        s
    } else {
        subscribers_after(subscribers_after_events(s, events.drop_last(), topic), events.last(), topic)
    }
}

/// The latest subscription event of `p` on `topic`: `Some(true)` for a subscription,
/// `Some(false)` for an unsubscription, `None` when there is neither.
pub open spec fn last_subscription(events: Seq<NetworkEvent>, topic: Seq<char>, p: Seq<char>) -> Option<
    bool,
>
    decreases events.len(),
{
    if events.len() == 0 {
        None
    } else {
        match events.last() {
            NetworkEvent::Subscribed { peer, topic: t } => if t@ == topic && peer@ == p {
                Some(true)
            } else {
                last_subscription(events.drop_last(), topic, p)
            },
            NetworkEvent::Unsubscribed { peer, topic: t } => if t@ == topic && peer@ == p {
                Some(false)
            } else {
                last_subscription(events.drop_last(), topic, p)
            },
            _ => last_subscription(events.drop_last(), topic, p),
        }
    }
}

/// Starting from no subscriptions, a topic's subscribers are exactly the distinct peers
/// whose latest subscription event on it subscribed them, a later unsubscription
/// cancelling an earlier subscription; the set is finite, so its size is a count that
/// is never negative.
pub proof fn lemma_subscriber_count(events: Seq<NetworkEvent>, topic: Seq<char>)
    ensures
        subscribers_after_events(Set::empty(), events, topic) == Set::new(
            |p: Seq<char>| last_subscription(events, topic, p) == Some(true),
        ),
        subscribers_after_events(Set::empty(), events, topic).finite(),
    decreases events.len(),
{
    if events.len() == 0 {
        assert(Set::<Seq<char>>::empty() =~= Set::new(
            |p: Seq<char>| last_subscription(events, topic, p) == Some(true),
        ));
    } else {
        let prev = events.drop_last();
        lemma_subscriber_count(prev, topic);
        let s = subscribers_after_events(Set::empty(), events, topic);
        assert(s =~= Set::new(|p: Seq<char>| last_subscription(events, topic, p) == Some(true)));
    }
}

/// A field-by-field copy of a record.
fn copy_peer(p: &PeerInfo) -> (r: PeerInfo)
    ensures
        r@ == p@,
{
    let agent_version = match &p.agent_version {
        Some(s) => Some(s.clone()),
        None => None,
    };
    let protocol_version = match &p.protocol_version {
        Some(s) => Some(s.clone()),
        None => None,
    };
    let addresses = p.addresses.clone();
    proof {
        assert(addresses.deep_view() =~= p.addresses.deep_view());
    }
    PeerInfo {
        peer_id: p.peer_id.clone(),
        addresses,
        connected: p.connected,
        agent_version,
        protocol_version,
        discovered_at: p.discovered_at,
        last_seen: p.last_seen,
        connection_attempts: p.connection_attempts,
        supports_teranode: p.supports_teranode,
    }
}

/// The registry: peer records in the order they were first observed, and the peers
/// subscribed to each topic.
pub struct PeerRegistry {
    peers: Vec<PeerInfo>,
    topics: Vec<TopicPeers>,
}

impl PeerRegistry {
    /// The peer records.
    pub closed spec fn records(&self) -> Seq<PeerView> {
        views(self.peers@)
    }

    /// The peers subscribed to `topic`.
    pub closed spec fn subscribers(&self, topic: Seq<char>) -> Set<Seq<char>> {
        Set::new(
            |p: Seq<char>|
                exists|i: int|
                    0 <= i < self.topics@.len() && (#[trigger] self.topics@[i]).topic@ == topic
                        && self.topics@[i].peers.deep_view().contains(p),
        )
    }

    /// Topic entries have distinct names and list each subscriber once.
    closed spec fn topics_wf(&self) -> bool {
        &&& forall|i: int, j: int|
            0 <= i < j < self.topics@.len() ==> self.topics@[i].topic@ != self.topics@[j].topic@
        &&& forall|i: int|
            0 <= i < self.topics@.len() ==> (#[trigger] self.topics@[i]).peers.deep_view().no_duplicates()
    }

    /// Identifiers are distinct and every record is well formed.
    pub closed spec fn wf(&self) -> bool {
        &&& ids_distinct(self.records())
        &&& forall|i: int| 0 <= i < self.records().len() ==> peer_wf(#[trigger] self.records()[i])
        &&& self.topics_wf()
    }

    /// An empty registry.
    pub fn new() -> (r: Self)
        ensures
            r.wf(),
            r.records() == Seq::<PeerView>::empty(),
            forall|t: Seq<char>| #[trigger] r.subscribers(t) == Set::<Seq<char>>::empty(),
    {
        let r = PeerRegistry { peers: Vec::new(), topics: Vec::new() };
        assert(r.records() =~= Seq::<PeerView>::empty());
        assert forall|t: Seq<char>| #[trigger] r.subscribers(t) == Set::<Seq<char>>::empty() by {
            assert(r.subscribers(t) =~= Set::<Seq<char>>::empty());
        }
        r
    }

    /// The records of a well-formed registry have distinct identifiers, and none holds
    /// an address twice or was last seen before it was discovered.
    pub proof fn lemma_records_wf(&self)
        requires
            self.wf(),
        ensures
            ids_distinct(self.records()),
            forall|i: int| 0 <= i < self.records().len() ==> peer_wf(#[trigger] self.records()[i]),
    {
    }

    /// The position of the entry for `topic`.
    fn topic_index(&self, topic: &String) -> (r: Option<usize>)
        ensures
            r matches Some(i) ==> i < self.topics@.len() && self.topics@[i as int].topic@ == topic@,
            r is None ==> forall|i: int|
                0 <= i < self.topics@.len() ==> (#[trigger] self.topics@[i]).topic@ != topic@,
    {
        let n = self.topics.len();
        let mut i: usize = 0;
        while i < n
            invariant
                n == self.topics@.len(),
                i <= n,
                forall|j: int| 0 <= j < i ==> (#[trigger] self.topics@[j]).topic@ != topic@,
            decreases n - i,
        {
            if self.topics[i].topic == *topic {
                return Some(i);
            }
            i = i + 1;
        }
        None
    }

    /// With topic names distinct, the subscribers of the topic at `i` are its list.
    proof fn lemma_subscribers_at(&self, i: int)
        requires
            self.topics_wf(),
            0 <= i < self.topics@.len(),
        ensures
            self.subscribers(self.topics@[i].topic@) == self.topics@[i].peers.deep_view().to_set(),
    {
        let t = self.topics@[i].topic@;
        assert forall|p: Seq<char>| #[trigger] self.subscribers(t).contains(p) <==> self.topics@[i].peers.deep_view().to_set().contains(p) by {
            if self.subscribers(t).contains(p) {
                let j = choose|j: int|
                    0 <= j < self.topics@.len() && (#[trigger] self.topics@[j]).topic@ == t
                        && self.topics@[j].peers.deep_view().contains(p);
                if j != i {
                    if j < i {
                        assert(self.topics@[j].topic@ != self.topics@[i].topic@);
                    } else {
                        assert(self.topics@[i].topic@ != self.topics@[j].topic@);
                    }
                }
            }
        }
        assert(self.subscribers(t) =~= self.topics@[i].peers.deep_view().to_set());
    }

    /// A topic that has no entry has no subscribers.
    proof fn lemma_subscribers_absent(&self, t: Seq<char>)
        requires
            forall|i: int| 0 <= i < self.topics@.len() ==> (#[trigger] self.topics@[i]).topic@ != t,
        ensures
            self.subscribers(t) == Set::<Seq<char>>::empty(),
    {
        assert(self.subscribers(t) =~= Set::<Seq<char>>::empty());
    }

    /// How many peers are subscribed to `topic`.
    pub fn topic_peer_count(&self, topic: &String) -> (r: usize)
        requires
            self.wf(),
        ensures
            self.subscribers(topic@).finite(),
            r == self.subscribers(topic@).len(),
    {
        match self.topic_index(topic) {
            Some(i) => {
                proof {
                    self.lemma_subscribers_at(i as int);
                    self.topics@[i as int].peers.deep_view().unique_seq_to_set();
                }
                self.topics[i].peers.len()
            },
            None => {
                proof {
                    self.lemma_subscribers_absent(topic@);
                }
                0
            },
        }
    }

    /// The peers subscribed to `topic`, each once.
    pub fn topic_peers(&self, topic: &String) -> (r: Vec<String>)
        requires
            self.wf(),
        ensures
            r.deep_view().no_duplicates(),
            r.deep_view().to_set() == self.subscribers(topic@),
    {
        match self.topic_index(topic) {
            Some(i) => {
                proof {
                    self.lemma_subscribers_at(i as int);
                }
                let r = self.topics[i].peers.clone();
                proof {
                    assert(r.deep_view() =~= self.topics@[i as int].peers.deep_view());
                }
                r
            },
            None => {
                proof {
                    self.lemma_subscribers_absent(topic@);
                }
                let r: Vec<String> = Vec::new();
                assert(r.deep_view().to_set() =~= Set::<Seq<char>>::empty());
                r
            },
        }
    }

    /// Records that `peer` subscribed to `topic`.
    fn subscribe(&mut self, peer: String, topic: String)
        requires
            old(self).wf(),
        ensures
            final(self).wf(),
            final(self).peers == old(self).peers,
            forall|t: Seq<char>| #[trigger] final(self).subscribers(t) == if t == topic@ {
                old(self).subscribers(t).insert(peer@)
            } else {
                old(self).subscribers(t)
            },
    {
        let ghost old_topics = self.topics@;
        match self.topic_index(&topic) {
            None => {
                let mut peers: Vec<String> = Vec::new();
                peers.push(peer);
                self.topics.push(TopicPeers { topic, peers });
                proof {
                    let n = old_topics.len() as int;
                    assert(self.topics@[n].peers.deep_view() =~= seq![peer@]);
                    assert forall|t: Seq<char>| #[trigger] self.subscribers(t) == if t == topic@ {
                        old(self).subscribers(t).insert(peer@)
                    } else {
                        old(self).subscribers(t)
                    } by {
                        if t == topic@ {
                            old(self).lemma_subscribers_absent(t);
                            self.lemma_subscribers_at(n);
                            assert(seq![peer@].to_set() =~= Set::<Seq<char>>::empty().insert(peer@)) by {
                                assert(seq![peer@][0] == peer@);
                            }
                        } else {
                            assert(self.subscribers(t) =~= old(self).subscribers(t)) by {
                                assert forall|p: Seq<char>| self.subscribers(t).contains(p) implies old(self).subscribers(t).contains(p) by {
                                    let j = choose|j: int|
                                        0 <= j < self.topics@.len() && (#[trigger] self.topics@[j]).topic@ == t
                                            && self.topics@[j].peers.deep_view().contains(p);
                                    assert(j < n);
                                    assert(self.topics@[j] == old_topics[j]);
                                }
                                assert forall|p: Seq<char>| old(self).subscribers(t).contains(p) implies self.subscribers(t).contains(p) by {
                                    let j = choose|j: int|
                                        0 <= j < old_topics.len() && (#[trigger] old_topics[j]).topic@ == t
                                            && old_topics[j].peers.deep_view().contains(p);
                                    assert(self.topics@[j] == old_topics[j]);
                                }
                            }
                        }
                    }
                }
            },
            Some(i) => {
                let n = self.topics[i].peers.len();
                let mut k: usize = 0;
                let mut present = false;
                while k < n
                    invariant
                        i < self.topics@.len(),
                        n == self.topics@[i as int].peers@.len(),
                        k <= n,
                        present == exists|j: int| 0 <= j < k && self.topics@[i as int].peers@[j]@ == peer@,
                    decreases n - k,
                {
                    if self.topics[i].peers[k] == peer {
                        present = true;
                    }
                    k = k + 1;
                }
                let ghost before = self.topics@[i as int].peers.deep_view();
                proof {
                    if present {
                        let j = choose|j: int| 0 <= j < n && self.topics@[i as int].peers@[j]@ == peer@;
                        assert(before[j] == peer@);
                    } else {
                        assert forall|j: int| 0 <= j < before.len() implies before[j] != peer@ by {
                            assert(before[j] == self.topics@[i as int].peers@[j]@);
                        }
                    }
                }
                if !present {
                    self.topics[i].peers.push(peer);
                    proof {
                        assert(self.topics@[i as int].peers.deep_view() =~= before.push(peer@));
                        assert forall|x: int, y: int| 0 <= x < y < before.push(peer@).len() implies before.push(peer@)[x] != before.push(peer@)[y] by {
                            if y == before.len() {
                                assert(before.push(peer@)[x] == before[x]);
                            }
                        }
                    }
                }
                proof {
                    let new_list = self.topics@[i as int].peers.deep_view();
                    assert(new_list.to_set() =~= before.to_set().insert(peer@)) by {
                        if !present {
                            assert(new_list =~= before.push(peer@));
                            assert(new_list[before.len() as int] == peer@);
                            assert forall|p: Seq<char>| before.contains(p) implies new_list.contains(p) by {
                                let j = choose|j: int| 0 <= j < before.len() && before[j] == p;
                                assert(new_list[j] == p);
                            }
                        } else {
                            assert(new_list =~= before);
                        }
                    }
                    assert forall|j: int| 0 <= j < self.topics@.len() && j != i implies #[trigger] self.topics@[j] == old_topics[j] by {}
                    assert forall|t: Seq<char>| #[trigger] self.subscribers(t) == if t == topic@ {
                        old(self).subscribers(t).insert(peer@)
                    } else {
                        old(self).subscribers(t)
                    } by {
                        if t == topic@ {
                            old(self).lemma_subscribers_at(i as int);
                            self.lemma_subscribers_at(i as int);
                        } else {
                            assert(self.subscribers(t) =~= old(self).subscribers(t)) by {
                                assert forall|p: Seq<char>| self.subscribers(t).contains(p) implies old(self).subscribers(t).contains(p) by {
                                    let j = choose|j: int|
                                        0 <= j < self.topics@.len() && (#[trigger] self.topics@[j]).topic@ == t
                                            && self.topics@[j].peers.deep_view().contains(p);
                                    assert(j != i);
                                    assert(self.topics@[j] == old_topics[j]);
                                }
                                assert forall|p: Seq<char>| old(self).subscribers(t).contains(p) implies self.subscribers(t).contains(p) by {
                                    let j = choose|j: int|
                                        0 <= j < old_topics.len() && (#[trigger] old_topics[j]).topic@ == t
                                            && old_topics[j].peers.deep_view().contains(p);
                                    assert(j != i);
                                    assert(self.topics@[j] == old_topics[j]);
                                }
                            }
                        }
                    }
                }
            },
        }
    }

    /// Records that `peer` unsubscribed from `topic`.
    fn unsubscribe(&mut self, peer: String, topic: String)
        requires
            old(self).wf(),
        ensures
            final(self).wf(),
            final(self).peers == old(self).peers,
            forall|t: Seq<char>| #[trigger] final(self).subscribers(t) == if t == topic@ {
                old(self).subscribers(t).remove(peer@)
            } else {
                old(self).subscribers(t)
            },
    {
        let ghost old_topics = self.topics@;
        match self.topic_index(&topic) {
            None => {
                proof {
                    self.lemma_subscribers_absent(topic@);
                    assert(Set::<Seq<char>>::empty().remove(peer@) =~= Set::<Seq<char>>::empty());
                }
            },
            Some(i) => {
                let n = self.topics[i].peers.len();
                let mut k: usize = 0;
                let mut found: Option<usize> = None;
                while k < n
                    invariant
                        i < self.topics@.len(),
                        n == self.topics@[i as int].peers@.len(),
                        k <= n,
                        found matches Some(j) ==> j < n && self.topics@[i as int].peers@[j as int]@ == peer@,
                        found is None ==> forall|j: int| 0 <= j < k ==> self.topics@[i as int].peers@[j]@ != peer@,
                    decreases n - k,
                {
                    if found.is_none() && self.topics[i].peers[k] == peer {
                        found = Some(k);
                    }
                    k = k + 1;
                }
                let ghost before = self.topics@[i as int].peers.deep_view();
                match found {
                    Some(j) => {
                        let _gone = self.topics[i].peers.remove(j);
                        proof {
                            let after = self.topics@[i as int].peers.deep_view();
                            assert(after =~= before.remove(j as int));
                            assert(before[j as int] == peer@);
                            assert forall|x: int, y: int| 0 <= x < y < after.len() implies after[x] != after[y] by {
                                let x0 = if x < j { x } else { x + 1 };
                                let y0 = if y < j { y } else { y + 1 };
                                assert(after[x] == before[x0] && after[y] == before[y0]);
                            }
                            assert(after.to_set() =~= before.to_set().remove(peer@)) by {
                                assert forall|p: Seq<char>| after.contains(p) implies before.contains(p) && p != peer@ by {
                                    let x = choose|x: int| 0 <= x < after.len() && after[x] == p;
                                    let x0 = if x < j { x } else { x + 1 };
                                    assert(before[x0] == p);
                                    assert(x0 != j);
                                }
                                assert forall|p: Seq<char>| before.contains(p) && p != peer@ implies after.contains(p) by {
                                    let x0 = choose|x0: int| 0 <= x0 < before.len() && before[x0] == p;
                                    assert(x0 != j);
                                    let x = if x0 < j { x0 } else { x0 - 1 };
                                    assert(after[x] == p);
                                }
                            }
                        }
                    },
                    None => {
                        proof {
                            assert forall|x: int| 0 <= x < before.len() implies before[x] != peer@ by {
                                assert(before[x] == self.topics@[i as int].peers@[x]@);
                            }
                            assert(before.to_set() =~= before.to_set().remove(peer@));
                        }
                    },
                }
                proof {
                    assert forall|j: int| 0 <= j < self.topics@.len() && j != i implies #[trigger] self.topics@[j] == old_topics[j] by {}
                    assert forall|t: Seq<char>| #[trigger] self.subscribers(t) == if t == topic@ {
                        old(self).subscribers(t).remove(peer@)
                    } else {
                        old(self).subscribers(t)
                    } by {
                        if t == topic@ {
                            old(self).lemma_subscribers_at(i as int);
                            self.lemma_subscribers_at(i as int);
                        } else {
                            assert(self.subscribers(t) =~= old(self).subscribers(t)) by {
                                assert forall|p: Seq<char>| self.subscribers(t).contains(p) implies old(self).subscribers(t).contains(p) by {
                                    let j = choose|j: int|
                                        0 <= j < self.topics@.len() && (#[trigger] self.topics@[j]).topic@ == t
                                            && self.topics@[j].peers.deep_view().contains(p);
                                    assert(j != i);
                                    assert(self.topics@[j] == old_topics[j]);
                                }
                                assert forall|p: Seq<char>| old(self).subscribers(t).contains(p) implies self.subscribers(t).contains(p) by {
                                    let j = choose|j: int|
                                        0 <= j < old_topics.len() && (#[trigger] old_topics[j]).topic@ == t
                                            && old_topics[j].peers.deep_view().contains(p);
                                    assert(j != i);
                                    assert(self.topics@[j] == old_topics[j]);
                                }
                            }
                        }
                    }
                }
            },
        }
    }

    /// Copies of all peer records, in the order the peers were first observed.
    pub fn get_peers(&self) -> (r: Vec<PeerInfo>)
        requires
            self.wf(),
        ensures
            views(r@) == self.records(),
            ids_distinct(views(r@)),
            forall|i: int| 0 <= i < views(r@).len() ==> peer_wf(#[trigger] views(r@)[i]),
    {
        let n = self.peers.len();
        let mut r: Vec<PeerInfo> = Vec::new();
        let mut i: usize = 0;
        while i < n
            invariant
                n == self.peers@.len(),
                i <= n,
                n == self.records().len(),
                views(r@) == self.records().take(i as int),
            decreases n - i,
        {
            let p = copy_peer(&self.peers[i]);
            let ghost before = r@;
            r.push(p);
            proof {
                assert(views(r@) =~= views(before).push(p@));
                assert(self.records()[i as int] == self.peers@[i as int]@);
                assert(views(r@) =~= self.records().take(i as int + 1));
            }
            i = i + 1;
        }
        proof {
            assert(self.records().take(n as int) =~= self.records());
        }
        r
    }

    /// Copies of the records of connected peers, in order.
    pub fn get_connected_peers(&self) -> (r: Vec<PeerInfo>)
        ensures
            views(r@) == connected_only(self.records()),
    {
        let n = self.peers.len();
        let mut r: Vec<PeerInfo> = Vec::new();
        let mut i: usize = 0;
        while i < n
            invariant
                n == self.peers@.len(),
                n == self.records().len(),
                i <= n,
                views(r@) == connected_only(self.records().take(i as int)),
            decreases n - i,
        {
            let ghost prefix = self.records().take(i as int + 1);
            proof {
                assert(prefix.drop_last() =~= self.records().take(i as int));
                assert(prefix.last() == self.peers@[i as int]@);
            }
            if self.peers[i].connected {
                let p = copy_peer(&self.peers[i]);
                let ghost before = r@;
                r.push(p);
                proof {
                    assert(views(r@) =~= views(before).push(p@));
                    assert(views(r@) =~= connected_only(prefix));
                }
            }
            i = i + 1;
        }
        proof {
            assert(self.records().take(n as int) =~= self.records());
        }
        r
    }

    /// Copies of the records of peers found compatible, in order.
    pub fn get_teranode_peers(&self) -> (r: Vec<PeerInfo>)
        ensures
            views(r@) == compatible_only(self.records()),
    {
        let n = self.peers.len();
        let mut r: Vec<PeerInfo> = Vec::new();
        let mut i: usize = 0;
        while i < n
            invariant
                n == self.peers@.len(),
                n == self.records().len(),
                i <= n,
                views(r@) == compatible_only(self.records().take(i as int)),
            decreases n - i,
        {
            let ghost prefix = self.records().take(i as int + 1);
            proof {
                assert(prefix.drop_last() =~= self.records().take(i as int));
                assert(prefix.last() == self.peers@[i as int]@);
            }
            if self.peers[i].supports_teranode {
                let p = copy_peer(&self.peers[i]);
                let ghost before = r@;
                r.push(p);
                proof {
                    assert(views(r@) =~= views(before).push(p@));
                    assert(views(r@) =~= compatible_only(prefix));
                }
            }
            i = i + 1;
        }
        proof {
            assert(self.records().take(n as int) =~= self.records());
        }
        r
    }

    /// A copy of the record of `id`, or `PeerNotFound` when no record has that identifier.
    pub fn get_peer(&self, id: &String) -> (r: Result<PeerInfo, P2PError>)
        ensures
            r.is_ok() == knows(self.records(), id@),
            r matches Ok(p) ==> p@.peer_id == id@ && self.records().contains(p@),
            r matches Err(e) ==> e is PeerNotFound,
    {
        match self.position(id) {
            Some(i) => {
                let p = copy_peer(&self.peers[i]);
                proof {
                    assert(self.records()[i as int] == p@);
                }
                Ok(p)
            },
            None => Err(P2PError::PeerNotFound(id.clone())),
        }
    }

    /// The position of the record for `id`, created at `now` when there is none.
    fn observe(&mut self, id: String, now: u64) -> (i: usize)
        requires
            old(self).wf(),
        ensures
            final(self).wf(),
            final(self).records() == observed(old(self).records(), id@, now),
            i < final(self).records().len(),
            final(self).records()[i as int].peer_id == id@,
            final(self).topics == old(self).topics,
    {
        match self.position(&id) {
            Some(i) => i,
            None => {
                let p = PeerInfo::new(id, now);
                self.peers.push(p);
                proof {
                    let ghost ps = old(self).records();
                    assert(self.records() =~= ps.push(fresh_peer(id@, now)));
                    assert forall|x: int, y: int| 0 <= x < y < self.records().len() implies self.records()[x].peer_id
                        != self.records()[y].peer_id by {
                        if y == ps.len() {
                            assert(ps[x].peer_id != id@);
                        }
                    }
                }
                self.peers.len() - 1
            },
        }
    }

    /// Dispatches one event at `now`: updates the record of the peer it concerns,
    /// creating it when the event observes a new peer, and returns the message to
    /// hand to consumers when the event is a topic message. Events that are only
    /// informational change nothing.
    pub fn handle_event(&mut self, event: NetworkEvent, now: u64, prefix: &String) -> (r: Option<GossipMessage>)
        requires
            old(self).wf(),
        ensures
            final(self).wf(),
            final(self).records() == after_event(old(self).records(), event, now, prefix@),
            forall|t: Seq<char>| #[trigger] final(self).subscribers(t) == subscribers_after(
                old(self).subscribers(t),
                event,
                t,
            ),
            forwarded(event, r),
    {
        let ghost e = event;
        let ghost start = self.records();
        match event {
            NetworkEvent::ConnectionEstablished { peer } => {
                let i = self.observe(peer, now);
                let ghost mid = self.records();
                self.peers[i].set_connected(true, now);
                proof {
                    assert(self.records() =~= mid.update(i as int, self.peers@[i as int]@));
                    lemma_replaced(mid, self.records(), i as int, e, now, prefix@);
                }
                None
            },
            NetworkEvent::ConnectionClosed { peer } => {
                match self.position(&peer) {
                    Some(i) => {
                        self.peers[i].set_connected(false, now);
                        proof {
                            assert(self.records() =~= start.update(i as int, self.peers@[i as int]@));
                            lemma_replaced(start, self.records(), i as int, e, now, prefix@);
                        }
                    },
                    None => {
                        proof {
                            lemma_changed_absent(start, peer@, e, now, prefix@);
                        }
                    },
                }
                None
            },
            NetworkEvent::OutgoingConnectionError { peer: Some(peer) } => {
                match self.position(&peer) {
                    Some(i) => {
                        self.peers[i].increment_attempts();
                        proof {
                            assert(self.records() =~= start.update(i as int, self.peers@[i as int]@));
                            lemma_replaced(start, self.records(), i as int, e, now, prefix@);
                        }
                    },
                    None => {
                        proof {
                            lemma_changed_absent(start, peer@, e, now, prefix@);
                        }
                    },
                }
                None
            },
            NetworkEvent::RoutingUpdated { peer } => {
                let i = self.observe(peer, now);
                proof {
                    let ghost mid = self.records();
                    assert(mid.update(i as int, event_change(mid[i as int], e, now, prefix@)) =~= mid);
                    lemma_replaced(mid, self.records(), i as int, e, now, prefix@);
                }
                None
            },
            NetworkEvent::RoutablePeer { peer, address } => {
                let i = self.observe(peer, now);
                let ghost mid = self.records();
                self.peers[i].add_address(address, now);
                proof {
                    assert(self.records() =~= mid.update(i as int, self.peers@[i as int]@));
                    lemma_replaced(mid, self.records(), i as int, e, now, prefix@);
                }
                None
            },
            NetworkEvent::LocalPeerDiscovered { peer, address } => {
                let i = self.observe(peer, now);
                let ghost mid = self.records();
                self.peers[i].add_address(address, now);
                proof {
                    assert(self.records() =~= mid.update(i as int, self.peers@[i as int]@));
                    lemma_replaced(mid, self.records(), i as int, e, now, prefix@);
                }
                None
            },
            NetworkEvent::Identified {
                peer,
                agent_version,
                protocol_version,
                protocols,
                listen_addrs,
            } => {
                let supports = supports_teranode_protocol(&protocols, prefix.as_str());
                let i = self.observe(peer, now);
                let ghost mid = self.records();
                let ghost id_view = identified(
                    mid[i as int],
                    agent_version@,
                    protocol_version@,
                    supports,
                    now,
                );
                self.peers[i].update_from_identify(agent_version, protocol_version, supports, now);
                let ghost adds = listen_addrs.deep_view();
                let ghost topics_before = self.topics;
                let n = listen_addrs.len();
                let mut k: usize = 0;
                while k < n
                    invariant
                        n == listen_addrs@.len(),
                        adds == listen_addrs.deep_view(),
                        self.topics == topics_before,
                        k <= n,
                        i < mid.len(),
                        self.peers@.len() == mid.len(),
                        forall|j: int| 0 <= j < mid.len() && j != i ==> (#[trigger] self.peers@[j])@ == mid[j],
                        self.peers@[i as int]@ == addresses_added(id_view, adds.take(k as int), now),
                    decreases n - k,
                {
                    let a = listen_addrs[k].clone();
                    self.peers[i].add_address(a, now);
                    proof {
                        assert(adds.take(k as int + 1).drop_last() =~= adds.take(k as int));
                        assert(adds.take(k as int + 1).last() == listen_addrs@[k as int]@);
                    }
                    k = k + 1;
                }
                proof {
                    assert(adds.take(n as int) =~= adds);
                    assert(self.records() =~= mid.update(i as int, self.peers@[i as int]@));
                    lemma_replaced(mid, self.records(), i as int, e, now, prefix@);
                }
                None
            },
            NetworkEvent::Message { topic, data, source } => {
                Some(GossipMessage { topic, data, source })
            },
            NetworkEvent::Subscribed { peer, topic } => {
                self.subscribe(peer, topic);
                proof {
                    assert(self.records() == start);
                }
                None
            },
            NetworkEvent::Unsubscribed { peer, topic } => {
                self.unsubscribe(peer, topic);
                proof {
                    assert(self.records() == start);
                }
                None
            },
            _ => None,
        }
    }

    /// The position of the record with identifier `id`.
    fn position(&self, id: &String) -> (r: Option<usize>)
        ensures
            r matches Some(i) ==> i < self.records().len() && self.records()[i as int].peer_id
                == id@,
            r is None ==> !knows(self.records(), id@),
    {
        let n = self.peers.len();
        let mut i: usize = 0;
        while i < n
            invariant
                n == self.peers@.len(),
                i <= n,
                forall|j: int| 0 <= j < i ==> self.peers@[j].peer_id@ != id@,
            decreases n - i,
        {
            if self.peers[i].peer_id == *id {
                assert(self.records()[i as int] == self.peers@[i as int]@);
                return Some(i);
            }
            i = i + 1;
        }
        proof {
            assert forall|j: int| 0 <= j < self.records().len() implies (
            #[trigger] self.records()[j]).peer_id != id@ by {
                assert(self.records()[j] == self.peers@[j]@);
            }
        }
        None
    }
}

} // verus!
