//! One record per peer: what has been observed of it so far.
use vstd::prelude::*;

verus! {

/// A peer record. Identifiers and addresses are in their text form; times are
/// milliseconds since the Unix epoch, as read by the caller.
#[derive(Debug, Clone)]
pub struct PeerInfo {
    /// The peer's identifier; never changes once the record exists.
    pub peer_id: String,
    /// Known addresses, each at most once.
    pub addresses: Vec<String>,
    /// Whether a connection to the peer is open.
    pub connected: bool,
    /// Agent version reported by identification.
    pub agent_version: Option<String>,
    /// Protocol version reported by identification.
    pub protocol_version: Option<String>,
    /// When the peer was first observed.
    pub discovered_at: u64,
    /// When the peer was last active; never decreases.
    pub last_seen: u64,
    /// Failed outbound connection attempts.
    pub connection_attempts: u32,
    /// Whether an identification exchange showed that the peer speaks this
    /// application's protocol. Once true it stays true.
    pub supports_teranode: bool,
}

/// The mathematical value of a peer record.
pub struct PeerView {
    pub peer_id: Seq<char>,
    pub addresses: Seq<Seq<char>>,
    pub connected: bool,
    pub agent_version: Option<Seq<char>>,
    pub protocol_version: Option<Seq<char>>,
    pub discovered_at: u64,
    pub last_seen: u64,
    pub connection_attempts: u32,
    pub supports_teranode: bool,
}

pub open spec fn opt_view(o: Option<String>) -> Option<Seq<char>> {
    match o {
        Some(s) => Some(s@),
        None => None,
    }
}

impl View for PeerInfo {
    type V = PeerView;

    open spec fn view(&self) -> PeerView {
        PeerView {
            peer_id: self.peer_id@,
            addresses: self.addresses.deep_view(),
            connected: self.connected,
            agent_version: opt_view(self.agent_version),
            protocol_version: opt_view(self.protocol_version),
            discovered_at: self.discovered_at,
            last_seen: self.last_seen,
            connection_attempts: self.connection_attempts,
            supports_teranode: self.supports_teranode,
        }
    }
}

/// The later of two times.
pub open spec fn later(a: u64, b: u64) -> u64 {
    if a < b {
        b
    } else {
        a
    }
}

/// A record seen for the first time at `now`.
pub open spec fn fresh_peer(id: Seq<char>, now: u64) -> PeerView {
    PeerView {
        peer_id: id,
        addresses: Seq::empty(),
        connected: false,
        agent_version: None,
        protocol_version: None,
        discovered_at: now,
        last_seen: now,
        connection_attempts: 0,
        supports_teranode: false,
    }
}

/// An address list after adding `a`: unchanged when `a` is known, else `a` appended.
pub open spec fn with_address(addrs: Seq<Seq<char>>, a: Seq<char>) -> Seq<Seq<char>> {
    if addrs.contains(a) {
        addrs
    } else {
        addrs.push(a)
    }
}

/// An address list after adding each of `adds` in turn.
pub open spec fn with_addresses(addrs: Seq<Seq<char>>, adds: Seq<Seq<char>>) -> Seq<Seq<char>>
    decreases adds.len(),
{
    if adds.len() == 0 {
        addrs
    } else {
        with_address(with_addresses(addrs, adds.drop_last()), adds.last())
    }
}

/// A record after an address is observed at `now`.
pub open spec fn address_added(p: PeerView, a: Seq<char>, now: u64) -> PeerView {
    PeerView { addresses: with_address(p.addresses, a), last_seen: later(p.last_seen, now), ..p }
}

/// A record after its connection state is set at `now`; only a connection counts as
/// activity.
pub open spec fn connection_set(p: PeerView, connected: bool, now: u64) -> PeerView {
    PeerView {
        connected,
        last_seen: if connected {
            later(p.last_seen, now)
        } else {
            p.last_seen
        },
        ..p
    }
}

/// A record after an identification exchange at `now`. Compatibility is sticky: an
/// exchange can set it but never clear it.
pub open spec fn identified(
    p: PeerView,
    agent_version: Seq<char>,
    protocol_version: Seq<char>,
    supports: bool,
    now: u64,
) -> PeerView {
    PeerView {
        agent_version: Some(agent_version),
        protocol_version: Some(protocol_version),
        supports_teranode: p.supports_teranode || supports,
        last_seen: later(p.last_seen, now),
        ..p
    }
}

/// A record after a failed outbound connection; the count stops at its maximum.
pub open spec fn attempt_counted(p: PeerView) -> PeerView {
    PeerView {
        connection_attempts: if p.connection_attempts < u32::MAX {
            (p.connection_attempts + 1) as u32
        } else {
            p.connection_attempts
        },
        ..p
    }
}

/// A well-formed record: no address twice, and last activity no earlier than discovery.
pub open spec fn peer_wf(p: PeerView) -> bool {
    p.addresses.no_duplicates() && p.discovered_at <= p.last_seen
}

impl PeerInfo {
    /// A record for a peer observed for the first time at `now`.
    pub fn new(peer_id: String, now: u64) -> (r: Self)
        ensures
            r@ == fresh_peer(peer_id@, now),
            peer_wf(r@),
    {
        let r = PeerInfo {
            peer_id,
            addresses: Vec::new(),
            connected: false,
            agent_version: None,
            protocol_version: None,
            discovered_at: now,
            last_seen: now,
            connection_attempts: 0,
            supports_teranode: false,
        };
        assert(r@.addresses =~= Seq::<Seq<char>>::empty());
        r
    }

    /// Adds an address unless it is already known, and records activity at `now`.
    pub fn add_address(&mut self, addr: String, now: u64)
        ensures
            final(self)@ == address_added(old(self)@, addr@, now),
            peer_wf(old(self)@) ==> peer_wf(final(self)@),
    {
        let n = self.addresses.len();
        let mut i: usize = 0;
        let mut known = false;
        while i < n
            invariant
                n == self.addresses@.len(),
                i <= n,
                known == exists|j: int| 0 <= j < i && self.addresses@[j]@ == addr@,
            decreases n - i,
        {
            if self.addresses[i] == addr {
                known = true;
            }
            i = i + 1;
        }
        proof {
            let ghost d = self.addresses.deep_view();
            if known {
                let j = choose|j: int| 0 <= j < n && self.addresses@[j]@ == addr@;
                assert(d[j] == addr@);
            } else {
                assert forall|j: int| 0 <= j < d.len() implies d[j] != addr@ by {
                    assert(d[j] == self.addresses@[j]@);
                }
            }
        }
        let ghost before = self.addresses.deep_view();
        if !known {
            self.addresses.push(addr);
            proof {
                assert(self.addresses.deep_view() =~= before.push(addr@));
            }
        }
        proof {
            if before.no_duplicates() {
                lemma_with_address_distinct(before, addr@);
            }
        }
        if self.last_seen < now {
            self.last_seen = now;
        }
    }

    /// Sets the connection state; opening a connection records activity at `now`.
    pub fn set_connected(&mut self, connected: bool, now: u64)
        ensures
            final(self)@ == connection_set(old(self)@, connected, now),
            peer_wf(old(self)@) ==> peer_wf(final(self)@),
    {
        self.connected = connected;
        if connected && self.last_seen < now {
            self.last_seen = now;
        }
    }

    /// Records what an identification exchange reported. A peer once found compatible
    /// stays compatible.
    pub fn update_from_identify(
        &mut self,
        agent_version: String,
        protocol_version: String,
        supports_teranode: bool,
        now: u64,
    )
        ensures
            final(self)@ == identified(
                old(self)@,
                agent_version@,
                protocol_version@,
                supports_teranode,
                now,
            ),
            peer_wf(old(self)@) ==> peer_wf(final(self)@),
    {
        self.agent_version = Some(agent_version);
        self.protocol_version = Some(protocol_version);
        self.supports_teranode = self.supports_teranode || supports_teranode;
        if self.last_seen < now {
            self.last_seen = now;
        }
    }

    /// Counts a failed outbound connection attempt.
    pub fn increment_attempts(&mut self)
        ensures
            final(self)@ == attempt_counted(old(self)@),
            peer_wf(old(self)@) ==> peer_wf(final(self)@),
    {
        if self.connection_attempts < u32::MAX {
            self.connection_attempts = self.connection_attempts + 1;
        }
    }
}

/// Adding an address to a list without repeats gives a list without repeats.
pub proof fn lemma_with_address_distinct(addrs: Seq<Seq<char>>, a: Seq<char>)
    requires
        addrs.no_duplicates(),
    ensures
        with_address(addrs, a).no_duplicates(),
{
    if !addrs.contains(a) {
        let s = addrs.push(a);
        assert forall|x: int, y: int| 0 <= x < y < s.len() implies s[x] != s[y] by {
            if y == addrs.len() {
                assert(s[x] == addrs[x]);
            }
        }
    }
}

/// However often and in whatever order addresses are added, a record's address list
/// holds no address twice, and it holds exactly the addresses it started with and those
/// added.
pub proof fn lemma_addresses_stay_distinct(start: Seq<Seq<char>>, adds: Seq<Seq<char>>)
    requires
        start.no_duplicates(),
    ensures
        with_addresses(start, adds).no_duplicates(),
        forall|a: Seq<char>|
            #[trigger] with_addresses(start, adds).contains(a) <==> start.contains(a)
                || adds.contains(a),
    decreases adds.len(),
{
    if adds.len() > 0 {
        let prev = with_addresses(start, adds.drop_last());
        lemma_addresses_stay_distinct(start, adds.drop_last());
        let a = adds.last();
        lemma_with_address_distinct(prev, a);
        assert forall|b: Seq<char>| #[trigger]
            with_addresses(start, adds).contains(b) <==> start.contains(b) || adds.contains(b) by {
            if adds.drop_last().contains(b) {
                let k = choose|k: int| 0 <= k < adds.drop_last().len() && adds.drop_last()[k] == b;
                assert(adds[k] == b);
            }
            if adds.contains(b) && b != a {
                let k = choose|k: int| 0 <= k < adds.len() && adds[k] == b;
                assert(k < adds.len() - 1);
                assert(adds.drop_last()[k] == b);
            }
            if !prev.contains(a) {
                if prev.push(a).contains(b) && b != a {
                    let k = choose|k: int| 0 <= k < prev.push(a).len() && prev.push(a)[k] == b;
                    assert(prev[k] == b);
                }
                if b == a {
                    assert(prev.push(a)[prev.len() as int] == a);
                }
                if prev.contains(b) {
                    let k = choose|k: int| 0 <= k < prev.len() && prev[k] == b;
                    assert(prev.push(a)[k] == b);
                }
            }
            assert(adds[adds.len() - 1] == a);
        }
    }
}

} // verus!
