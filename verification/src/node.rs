//! The mesh node: it ties the key pair, the tunnel, the TUN device and the
//! peer table together and moves through its states.

use vstd::prelude::*;
use std::time::Instant;
use uuid::Uuid;
use crate::config::{Config, PeerConfig};
use crate::crypto::{KeyPair, PublicKey, key_element, x25519_public};
use crate::errors::Error;
use crate::net::{IpAddress, SocketAddress, ip_text, ipv4};
use crate::tun::{TunDevice, TunDeviceConfig};
use crate::wireguard::{PeerView, WireGuardPeer, WireGuardTunnel, clamped_digest};

verus! {

/// A universally unique identifier, carried as it is.
#[verifier::external_type_specification]
#[verifier::external_body]
pub struct ExUuid(Uuid);

/// A fresh random identifier (`Uuid::new_v4`). Nothing is claimed of it.
#[verifier::external_body]
fn new_uuid() -> (u: Uuid) {
    Uuid::new_v4()
}

/// Node state.
#[derive(Debug, Clone, Copy, PartialEq, Eq, Structural)]
pub enum NodeState {
    /// Node is starting
    Starting,
    /// Node is running
    Running,
    /// Node is stopping
    Stopping,
    /// Node is stopped
    Stopped,
}

/// Peer state.
#[derive(Debug, Clone, Copy, PartialEq, Eq, Structural)]
pub enum PeerState {
    /// Peer is disconnected
    Disconnected,
    /// Peer is connecting
    Connecting,
    /// Peer is connected
    Connected,
}

/// Peer information.
#[derive(Debug)]
pub struct PeerInfo {
    /// Public key
    pub public_key: PublicKey,
    /// Name
    pub name: Option<String>,
    /// State
    pub state: PeerState,
    /// Endpoint
    pub endpoint: Option<SocketAddress>,
    /// Last handshake time
    pub last_handshake: Option<Instant>,
    /// Bytes sent
    pub bytes_sent: u64,
    /// Bytes received
    pub bytes_received: u64,
}

impl Clone for PeerInfo {
    fn clone(&self) -> (r: Self)
        ensures
            r == *self,
    {
        let name = match &self.name {
            Some(n) => Some(n.clone()),
            None => None,
        };
        PeerInfo {
            public_key: self.public_key,
            name,
            state: self.state,
            endpoint: self.endpoint,
            last_handshake: self.last_handshake,
            bytes_sent: self.bytes_sent,
            bytes_received: self.bytes_received,
        }
    }
}

/// The information kept on a peer when it is added from its configuration:
/// disconnected, no handshake yet, nothing sent or received.
pub open spec fn info_of(pc: PeerConfig) -> PeerInfo {
    PeerInfo {
        public_key: pc.public_key,
        name: pc.name,
        state: PeerState::Disconnected,
        endpoint: pc.endpoint,
        last_handshake: None,
        bytes_sent: 0,
        bytes_received: 0,
    }
}

/// The tunnel peer made from a peer's configuration: its key and endpoint,
/// its allowed IPs as text with their prefix lengths, and its keepalive (0
/// when none).
pub open spec fn tunnel_peer_of(pc: PeerConfig) -> PeerView {
    PeerView {
        public_key: pc.public_key@,
        endpoint: pc.endpoint,
        allowed_ips: pc.allowed_ips@.map_values(|e: (IpAddress, u8)| (ip_text(e.0), e.1 as u32)),
        persistent_keepalive: match pc.persistent_keepalive {
            Some(k) => k,
            None => 0,
        },
    }
}

/// The identity of a public key: the field element it stands for. Keys with
/// the same identity are equal keys.
pub open spec fn key_id(k: PublicKey) -> nat {
    key_element(k@)
}

/// The table of peers, by key identity, that a list of entries with distinct
/// keys stands for.
pub open spec fn peer_table(s: Seq<PeerInfo>) -> Map<nat, PeerInfo>
    decreases s.len(),
{
    if s.len() == 0 {
        Map::empty()
    } else {
        peer_table(s.drop_last()).insert(key_id(s.last().public_key), s.last())
    }
}

/// Whether no two entries have equal keys.
pub open spec fn distinct_keys(s: Seq<PeerInfo>) -> bool {
    forall|i: int, j: int|
        0 <= i < s.len() && 0 <= j < s.len() && i != j ==> key_id(#[trigger] s[i].public_key)
            != key_id(#[trigger] s[j].public_key)
}

proof fn lemma_table_domain(s: Seq<PeerInfo>, k: nat)
    requires
        distinct_keys(s),
    ensures
        peer_table(s).contains_key(k) <==> exists|i: int| 0 <= i < s.len() && key_id(s[i].public_key) == k,
        forall|i: int| 0 <= i < s.len() && key_id(s[i].public_key) == k ==> peer_table(s)[k] == s[i],
    decreases s.len(),
{
    if s.len() > 0 {
        let d = s.drop_last();
        assert(distinct_keys(d)) by {
            assert forall|i: int, j: int|
                0 <= i < d.len() && 0 <= j < d.len() && i != j implies key_id(#[trigger] d[i].public_key)
                != key_id(#[trigger] d[j].public_key) by {
                assert(d[i] == s[i] && d[j] == s[j]);
            }
        }
        lemma_table_domain(d, k);
        if exists|i: int| 0 <= i < s.len() && key_id(s[i].public_key) == k {
            let i = choose|i: int| 0 <= i < s.len() && key_id(s[i].public_key) == k;
            if i < s.len() - 1 {
                assert(d[i] == s[i]);
            }
        }
        assert forall|i: int| 0 <= i < s.len() && key_id(s[i].public_key) == k implies peer_table(s)[k]
            == s[i] by {
            if i < s.len() - 1 {
                assert(d[i] == s[i]);
                assert(key_id(s[i].public_key) != key_id(s[s.len() - 1].public_key));
            }
        }
    }
}

proof fn lemma_table_update(s: Seq<PeerInfo>, j: int, x: PeerInfo)
    requires
        distinct_keys(s),
        0 <= j < s.len(),
        key_id(s[j].public_key) == key_id(x.public_key),
    ensures
        distinct_keys(s.update(j, x)),
        peer_table(s.update(j, x)) == peer_table(s).insert(key_id(x.public_key), x),
    decreases s.len(),
{
    let u = s.update(j, x);
    assert(distinct_keys(u)) by {
        assert forall|a: int, b: int|
            0 <= a < u.len() && 0 <= b < u.len() && a != b implies key_id(#[trigger] u[a].public_key)
            != key_id(#[trigger] u[b].public_key) by {
            assert(key_id(s[a].public_key) != key_id(s[b].public_key));
        }
    }
    let d = s.drop_last();
    assert(distinct_keys(d)) by {
        assert forall|a: int, b: int|
            0 <= a < d.len() && 0 <= b < d.len() && a != b implies key_id(#[trigger] d[a].public_key)
            != key_id(#[trigger] d[b].public_key) by {
            assert(d[a] == s[a] && d[b] == s[b]);
        }
    }
    if j == s.len() - 1 {
        assert(u.drop_last() =~= d);
        assert(peer_table(u) =~= peer_table(s).insert(key_id(x.public_key), x));
    } else {
        lemma_table_update(d, j, x);
        assert(u.drop_last() =~= d.update(j, x));
        assert(key_id(s.last().public_key) != key_id(x.public_key));
        assert(peer_table(u) =~= peer_table(s).insert(key_id(x.public_key), x));
    }
}

proof fn lemma_table_remove(s: Seq<PeerInfo>, j: int)
    requires
        distinct_keys(s),
        0 <= j < s.len(),
    ensures
        distinct_keys(s.remove(j)),
        peer_table(s.remove(j)) == peer_table(s).remove(key_id(s[j].public_key)),
    decreases s.len(),
{
    let r = s.remove(j);
    let k = key_id(s[j].public_key);
    assert(distinct_keys(r)) by {
        assert forall|a: int, b: int|
            0 <= a < r.len() && 0 <= b < r.len() && a != b implies key_id(#[trigger] r[a].public_key)
            != key_id(#[trigger] r[b].public_key) by {
            let a2 = if a < j {
                a
            } else {
                a + 1
            };
            let b2 = if b < j {
                b
            } else {
                b + 1
            };
            assert(r[a] == s[a2] && r[b] == s[b2]);
        }
    }
    let d = s.drop_last();
    assert(distinct_keys(d)) by {
        assert forall|a: int, b: int|
            0 <= a < d.len() && 0 <= b < d.len() && a != b implies key_id(#[trigger] d[a].public_key)
            != key_id(#[trigger] d[b].public_key) by {
            assert(d[a] == s[a] && d[b] == s[b]);
        }
    }
    if j == s.len() - 1 {
        assert(r =~= d);
        lemma_table_domain(d, k);
        assert forall|i: int| 0 <= i < d.len() implies key_id(d[i].public_key) != k by {
            assert(d[i] == s[i]);
        }
        assert(!peer_table(d).contains_key(k));
        assert(peer_table(r) =~= peer_table(s).remove(k));
    } else {
        lemma_table_remove(d, j);
        assert(r.drop_last() =~= d.remove(j));
        assert(r.last() == s.last());
        assert(key_id(s.last().public_key) != k);
        assert(peer_table(r) =~= peer_table(s).remove(k));
    }
}

/// The mesh node.
pub struct MeshNode {
    id: Uuid,
    config: Config,
    keypair: KeyPair,
    state: NodeState,
    peers: Vec<PeerInfo>,
    tunnel: Option<WireGuardTunnel>,
    tun_device: Option<TunDevice>,
}

impl MeshNode {
    /// Whether the node's parts agree: distinct peer keys and a well-formed
    /// key pair and tunnel.
    pub closed spec fn wf(&self) -> bool {
        &&& distinct_keys(self.peers@)
        &&& self.keypair.wf()
        &&& (self.tunnel matches Some(t) ==> t.wf())
    }

    /// The peers, by public key.
    pub closed spec fn peer_map(&self) -> Map<nat, PeerInfo> {
        peer_table(self.peers@)
    }

    /// The state.
    pub closed spec fn node_state(&self) -> NodeState {
        self.state
    }

    /// The identifier.
    pub closed spec fn node_id(&self) -> Uuid {
        self.id
    }

    /// The key pair.
    pub closed spec fn keys(&self) -> KeyPair {
        self.keypair
    }

    /// The configuration (without its private key).
    pub closed spec fn configuration(&self) -> Config {
        self.config
    }

    /// The tunnel, once started.
    pub closed spec fn tunnel_state(&self) -> Option<WireGuardTunnel> {
        self.tunnel
    }

    /// The TUN device, once started.
    pub closed spec fn tun_state(&self) -> Option<TunDevice> {
        self.tun_device
    }

    /// Creates a node from a configuration: it fails with a configuration
    /// error "No private key in config" when the configuration holds no
    /// private key; otherwise the node is stopped, has no peers, and keeps the
    /// key pair of that private key and the configuration without it.
    pub fn new(config: Config) -> (r: Result<Self, Error>)
        ensures
            config.node.private_key is None ==> (r matches Err(Error::Config(m)) && m@
                == "No private key in config"@),
            config.node.private_key matches Some(sk) ==> (r matches Ok(n) && n.wf()
                && n.node_state() == NodeState::Stopped && n.peer_map() == Map::<
                nat,
                PeerInfo,
            >::empty() && n.keys().secret() == sk && n.keys().public()@ == x25519_public(sk@)
                && n.configuration().node.private_key is None && n.configuration().node.name
                == config.node.name && n.configuration().node.listen_addr == config.node.listen_addr
                && n.configuration().peers == config.peers && n.configuration().tun
                == config.tun && n.tunnel_state() is None && n.tun_state() is None),
    {
        let mut config = config;
        let keypair = match config.node.private_key.take() {
            Some(private_key) => KeyPair::from_secret_key(private_key),
            None => {
                return Err(Error::Config(String::from_str("No private key in config")));
            },
        };
        Ok(MeshNode {
            id: new_uuid(),
            config,
            keypair,
            state: NodeState::Stopped,
            peers: Vec::new(),
            tunnel: None,
            tun_device: None,
        })
    }

    /// The node identifier.
    pub fn id(&self) -> (u: Uuid)
        ensures
            u == self.node_id(),
    {
        self.id
    }

    /// The node's public key.
    pub fn public_key(&self) -> (k: &PublicKey)
        ensures
            *k == self.keys().public(),
    {
        self.keypair.public_key()
    }

    /// The current state.
    pub fn state(&self) -> (s: NodeState)
        ensures
            s == self.node_state(),
    {
        self.state
    }

    /// The configured peers.
    pub open spec fn configured_peers(&self) -> Seq<PeerConfig> {
        self.configuration().peers@
    }
}


/// The text of each allowed IP with its prefix length.
fn allowed_ips_text(ips: &Vec<(IpAddress, u8)>) -> (v: Vec<(String, u32)>)
    ensures
        v@.map_values(|e: (String, u32)| (e.0@, e.1)) == ips@.map_values(
            |e: (IpAddress, u8)| (ip_text(e.0), e.1 as u32),
        ),
{
    let mut v: Vec<(String, u32)> = Vec::new();
    let mut i: usize = 0;
    while i < ips.len()
        invariant
            i <= ips@.len(),
            v@.len() == i,
            v@.map_values(|e: (String, u32)| (e.0@, e.1)) == ips@.subrange(0, i as int).map_values(
                |e: (IpAddress, u8)| (ip_text(e.0), e.1 as u32),
            ),
        decreases ips@.len() - i,
    {
        let (ip, cidr) = ips[i];
        let ghost before = v@;
        v.push((ip.to_text(), cidr as u32));
        proof {
            let lhs = v@.map_values(|e: (String, u32)| (e.0@, e.1));
            let rhs = ips@.subrange(0, i + 1).map_values(
                |e: (IpAddress, u8)| (ip_text(e.0), e.1 as u32),
            );
            let prev = ips@.subrange(0, i as int).map_values(
                |e: (IpAddress, u8)| (ip_text(e.0), e.1 as u32),
            );
            assert(lhs.len() == rhs.len());
            assert forall|k: int| 0 <= k < lhs.len() implies lhs[k] == rhs[k] by {
                if k < i {
                    assert(v@[k] == before[k]);
                    assert(before.map_values(|e: (String, u32)| (e.0@, e.1))[k] == prev[k]);
                }
            }
            assert(lhs =~= rhs);
        }
        i = i + 1;
    }
    proof {
        assert(ips@.subrange(0, i as int) =~= ips@);
    }
    v
}

/// The index of the entry with key `k`, if any.
fn find_entry(s: &Vec<PeerInfo>, k: &PublicKey) -> (r: Option<usize>)
    ensures
        match r {
            Some(j) => j < s@.len() && key_id(s@[j as int].public_key) == key_id(*k),
            None => forall|i: int| 0 <= i < s@.len() ==> key_id(s@[i].public_key) != key_id(*k),
        },
{
    let mut i: usize = 0;
    while i < s.len()
        invariant
            i <= s@.len(),
            forall|a: int| 0 <= a < i ==> key_id(s@[a].public_key) != key_id(*k),
        decreases s@.len() - i,
    {
        if s[i].public_key == *k {
            return Some(i);
        }
        i = i + 1;
    }
    None
}

impl MeshNode {
    /// Whether two nodes differ at most in their peers and tunnel.
    pub open spec fn same_but_peers(&self, other: &Self) -> bool {
        &&& self.node_state() == other.node_state()
        &&& self.node_id() == other.node_id()
        &&& self.keys() == other.keys()
        &&& self.configuration() == other.configuration()
        &&& self.tun_state() == other.tun_state()
    }

    /// Whether the tunnel went from `before` to `after` by `f` on its peers.
    pub open spec fn tunnel_peers_changed(
        before: Option<WireGuardTunnel>,
        after: Option<WireGuardTunnel>,
        peers: Seq<PeerView>,
    ) -> bool {
        match before {
            Some(t) => after matches Some(t2) && t2.peers() == peers && t2.same_but_peers(&t),
            None => after is None,
        }
    }

    /// Adds a peer from its configuration: it goes into the tunnel, if one is
    /// running, and into the peer table, replacing any entry with the same key.
    pub fn add_peer(&mut self, peer_config: PeerConfig) -> (r: Result<(), Error>)
        requires
            old(self).wf(),
        ensures
            r is Ok,
            final(self).wf(),
            final(self).peer_map() == old(self).peer_map().insert(
                key_id(peer_config.public_key),
                info_of(peer_config),
            ),
            final(self).same_but_peers(old(self)),
            Self::tunnel_peers_changed(
                old(self).tunnel_state(),
                final(self).tunnel_state(),
                match old(self).tunnel_state() {
                    Some(t) => t.peers().push(tunnel_peer_of(peer_config)),
                    None => Seq::empty(),
                },
            ),
    {
        let ghost pc = peer_config;
        let allowed_ips = allowed_ips_text(&peer_config.allowed_ips);
        let wg_peer = WireGuardPeer {
            public_key: *peer_config.public_key.as_bytes(),
            endpoint: peer_config.endpoint,
            allowed_ips,
            persistent_keepalive: peer_config.persistent_keepalive.unwrap_or(0),
        };
        proof {
            assert(wg_peer@ == tunnel_peer_of(pc));
        }
        let mut tunnel = self.tunnel.take();
        match &mut tunnel {
            Some(t) => {
                t.add_peer(wg_peer);
            },
            None => {},
        }
        self.tunnel = tunnel;
        let info = PeerInfo {
            public_key: peer_config.public_key,
            name: peer_config.name,
            state: PeerState::Disconnected,
            endpoint: peer_config.endpoint,
            last_handshake: None,
            bytes_sent: 0,
            bytes_received: 0,
        };
        proof {
            assert(info == info_of(pc));
        }
        let ghost before = self.peers@;
        match find_entry(&self.peers, &peer_config.public_key) {
            Some(j) => {
                proof {
                    lemma_table_update(before, j as int, info);
                }
                self.peers.set(j, info);
            },
            None => {
                self.peers.push(info);
                proof {
                    assert(self.peers@.drop_last() =~= before);
                    assert(distinct_keys(self.peers@)) by {
                        assert forall|a: int, b: int|
                            0 <= a < self.peers@.len() && 0 <= b < self.peers@.len() && a
                                != b implies #[trigger] self.peers@[a].public_key
                            != #[trigger] self.peers@[b].public_key by {
                            if a < before.len() && b < before.len() {
                                assert(before[a] == self.peers@[a]);
                                assert(before[b] == self.peers@[b]);
                            } else if a < before.len() {
                                assert(before[a] == self.peers@[a]);
                            } else {
                                assert(before[b] == self.peers@[b]);
                            }
                        }
                    }
                }
            },
        }
        Ok(())
    }

    /// Removes a peer: from the tunnel, if one is running, and from the peer
    /// table.
    pub fn remove_peer(&mut self, public_key: &PublicKey) -> (r: Result<(), Error>)
        requires
            old(self).wf(),
        ensures
            r is Ok,
            final(self).wf(),
            final(self).peer_map() == old(self).peer_map().remove(key_id(*public_key)),
            final(self).same_but_peers(old(self)),
            Self::tunnel_peers_changed(
                old(self).tunnel_state(),
                final(self).tunnel_state(),
                match old(self).tunnel_state() {
                    Some(t) => crate::wireguard::without_key(t.peers(), public_key@),
                    None => Seq::empty(),
                },
            ),
    {
        let mut tunnel = self.tunnel.take();
        match &mut tunnel {
            Some(t) => {
                t.remove_peer(public_key.as_bytes());
            },
            None => {},
        }
        self.tunnel = tunnel;
        let ghost before = self.peers@;
        match find_entry(&self.peers, public_key) {
            Some(j) => {
                proof {
                    lemma_table_remove(before, j as int);
                }
                self.peers.remove(j);
            },
            None => {
                proof {
                    lemma_table_domain(before, key_id(*public_key));
                    assert(peer_table(before).remove(key_id(*public_key)) =~= peer_table(before));
                }
            },
        }
        Ok(())
    }

    /// All peers, each once.
    pub fn peers(&self) -> (v: Vec<PeerInfo>)
        requires
            self.wf(),
        ensures
            distinct_keys(v@),
            peer_table(v@) == self.peer_map(),
    {
        let mut v: Vec<PeerInfo> = Vec::new();
        let mut i: usize = 0;
        while i < self.peers.len()
            invariant
                i <= self.peers@.len(),
                v@ == self.peers@.subrange(0, i as int),
            decreases self.peers@.len() - i,
        {
            v.push(self.peers[i].clone());
            i = i + 1;
            proof {
                assert(v@ =~= self.peers@.subrange(0, i as int));
            }
        }
        proof {
            assert(self.peers@.subrange(0, i as int) =~= self.peers@);
        }
        v
    }

    /// The peer with the given key, if any.
    pub fn get_peer(&self, public_key: &PublicKey) -> (r: Option<PeerInfo>)
        requires
            self.wf(),
        ensures
            r == (if self.peer_map().contains_key(key_id(*public_key)) {
                Some(self.peer_map()[key_id(*public_key)])
            } else {
                None
            }),
    {
        proof {
            lemma_table_domain(self.peers@, key_id(*public_key));
        }
        match find_entry(&self.peers, public_key) {
            Some(j) => Some(self.peers[j].clone()),
            None => None,
        }
    }
}


/// A peer added to a node is read back as the configuration made it under
/// its key and under every key equal to it, and every other entry of the
/// table is as it was.
pub proof fn lemma_get_after_add(before: Map<nat, PeerInfo>, after: Map<nat, PeerInfo>, pc: PeerConfig, k: PublicKey)
    requires
        after == before.insert(key_id(pc.public_key), info_of(pc)),
    ensures
        after.contains_key(key_id(pc.public_key)),
        after[key_id(pc.public_key)] == info_of(pc),
        after[key_id(pc.public_key)].state == PeerState::Disconnected,
        key_id(k) == key_id(pc.public_key) ==> after[key_id(k)] == info_of(pc),
        key_id(k) != key_id(pc.public_key) ==> (after.contains_key(key_id(k)) == before.contains_key(
            key_id(k),
        ) && (before.contains_key(key_id(k)) ==> after[key_id(k)] == before[key_id(k)])),
{
}

/// A peer removed from a node is no longer found, under its key or any key
/// equal to it, and every other entry of the table is as it was.
pub proof fn lemma_get_after_remove(before: Map<nat, PeerInfo>, after: Map<nat, PeerInfo>, removed: PublicKey, k: PublicKey)
    requires
        after == before.remove(key_id(removed)),
    ensures
        key_id(k) == key_id(removed) ==> !after.contains_key(key_id(k)),
        key_id(k) != key_id(removed) ==> (after.contains_key(key_id(k)) == before.contains_key(key_id(k))
            && (before.contains_key(key_id(k)) ==> after[key_id(k)] == before[key_id(k)])),
{
}

/// Adding a peer twice under equal keys leaves one entry, the later one.
pub proof fn lemma_add_replaces(m: Map<nat, PeerInfo>, first: PeerConfig, second: PeerConfig)
    requires
        key_id(first.public_key) == key_id(second.public_key),
    ensures
        m.insert(key_id(first.public_key), info_of(first)).insert(key_id(second.public_key), info_of(second))
            == m.insert(key_id(second.public_key), info_of(second)),
{
    assert(m.insert(key_id(first.public_key), info_of(first)).insert(key_id(second.public_key), info_of(second))
        =~= m.insert(key_id(second.public_key), info_of(second)));
}

/// The peer table after adding each configured peer in turn.
pub open spec fn peers_added(m: Map<nat, PeerInfo>, cfgs: Seq<PeerConfig>) -> Map<nat, PeerInfo>
    decreases cfgs.len(),
{
    if cfgs.len() == 0 {
        m
    } else {
        peers_added(m, cfgs.drop_last()).insert(key_id(cfgs.last().public_key), info_of(cfgs.last()))
    }
}

impl MeshNode {
    /// Begins starting: the node is starting, and the address its tunnel is
    /// to listen on is returned.
    pub fn start_begin(&mut self) -> (addr: SocketAddress)
        ensures
            final(self).node_state() == NodeState::Starting,
            addr == old(self).configuration().node.listen_addr,
            final(self).peer_map() == old(self).peer_map(),
            final(self).keys() == old(self).keys(),
            final(self).configuration() == old(self).configuration(),
            final(self).tunnel_state() == old(self).tunnel_state(),
            final(self).tun_state() == old(self).tun_state(),
            old(self).wf() ==> final(self).wf(),
    {
        self.state = NodeState::Starting;
        self.config.node.listen_addr
    }

    /// Finishes starting: a tunnel with the node's private key, the TUN device
    /// when the configuration enables it (named as configured, address the
    /// virtual IP, netmask 255.255.255.0, MTU 1420), every configured peer
    /// added, and the node running.
    pub fn start_finish(&mut self) -> (r: Result<(), Error>)
        requires
            old(self).wf(),
        ensures
            r is Ok,
            final(self).wf(),
            final(self).node_state() == NodeState::Running,
            final(self).keys() == old(self).keys(),
            final(self).configuration() == old(self).configuration(),
            final(self).peer_map() == peers_added(old(self).peer_map(), old(self).configured_peers()),
            final(self).tunnel_state() matches Some(t) && t.private_key() == old(
                self,
            ).keys().secret()@ && t.peers() == old(self).configured_peers().map_values(
                |pc: PeerConfig| tunnel_peer_of(pc),
            ) && t.next_index() == 1,
            old(self).configuration().tun.enabled ==> (final(self).tun_state() matches Some(d)
                && d.device_name() == match old(self).configuration().tun.name {
                Some(n) => n@,
                None => "mesh0"@,
            }),
            !old(self).configuration().tun.enabled ==> final(self).tun_state() == old(self).tun_state(),
    {
        let tun_enabled = self.config.tun.enabled;
        let tunnel = WireGuardTunnel::new(Some(*self.keypair.secret_key().as_bytes()));
        self.tunnel = Some(tunnel);
        if tun_enabled {
            let name = match &self.config.tun.name {
                Some(n) => Some(n.clone()),
                None => None,
            };
            let tun_config = TunDeviceConfig {
                name,
                address: self.config.node.virtual_ip,
                netmask: ipv4(255, 255, 255, 0),
                mtu: 1420,
            };
            match TunDevice::new(tun_config) {
                Ok(tun) => {
                    self.tun_device = Some(tun);
                },
                Err(e) => {
                    return Err(e);
                },
            }
        }
        self.initialize_peers();
        self.state = NodeState::Running;
        Ok(())
    }

    /// Adds every configured peer in turn.
    fn initialize_peers(&mut self)
        requires
            old(self).wf(),
            old(self).tunnel_state() is Some,
        ensures
            final(self).wf(),
            final(self).peer_map() == peers_added(old(self).peer_map(), old(self).configured_peers()),
            final(self).same_but_peers(old(self)),
            final(self).tunnel_state() matches Some(t2) && old(self).tunnel_state() matches Some(t)
                && t2.peers() == t.peers() + old(self).configured_peers().map_values(
                |pc: PeerConfig| tunnel_peer_of(pc),
            ) && t2.same_but_peers(&t),
    {
        let n = self.config.peers.len();
        let mut i: usize = 0;
        let ghost cfgs = self.config.peers@;
        let ghost t0 = self.tunnel.unwrap();
        while i < n
            invariant
                i <= n,
                n == cfgs.len(),
                self.config.peers@ == cfgs,
                cfgs == old(self).configured_peers(),
                self.wf(),
                self.peer_map() == peers_added(old(self).peer_map(), cfgs.subrange(0, i as int)),
                self.same_but_peers(old(self)),
                self.tunnel matches Some(t2) && t2.peers() == t0.peers() + cfgs.subrange(
                    0,
                    i as int,
                ).map_values(|pc: PeerConfig| tunnel_peer_of(pc)) && t2.same_but_peers(&t0),
                old(self).tunnel == Some(t0),
            decreases n - i,
        {
            let pc = self.config.peers[i].clone();
            let ghost t1 = self.tunnel.unwrap();
            let _ = self.add_peer(pc);
            proof {
                let sub = cfgs.subrange(0, i + 1);
                assert(sub.drop_last() =~= cfgs.subrange(0, i as int));
                assert(info_of(pc) == info_of(cfgs[i as int]));
                assert(tunnel_peer_of(pc) == tunnel_peer_of(cfgs[i as int]));
                assert(t0.peers() + sub.map_values(|pc: PeerConfig| tunnel_peer_of(pc)) =~= (t0.peers()
                    + cfgs.subrange(0, i as int).map_values(|pc: PeerConfig| tunnel_peer_of(pc))).push(
                    tunnel_peer_of(cfgs[i as int]),
                ));
            }
            i = i + 1;
        }
        proof {
            assert(cfgs.subrange(0, i as int) =~= cfgs);
        }
    }

    /// Stops the node: the tunnel and the TUN device are dropped and the node
    /// is stopped.
    pub fn stop(&mut self) -> (r: Result<(), Error>)
        ensures
            r is Ok,
            final(self).node_state() == NodeState::Stopped,
            final(self).tunnel_state() is None,
            final(self).tun_state() is None,
            final(self).peer_map() == old(self).peer_map(),
            final(self).keys() == old(self).keys(),
            final(self).configuration() == old(self).configuration(),
            old(self).wf() ==> final(self).wf(),
    {
        self.state = NodeState::Stopping;
        self.tunnel = None;
        self.tun_device = None;
        self.state = NodeState::Stopped;
        Ok(())
    }

    /// Starts the node (see [`start_begin`] and [`start_finish`]).
    pub fn start(&mut self) -> (r: Result<(), Error>)
        requires
            old(self).wf(),
        ensures
            r is Ok,
            final(self).wf(),
            final(self).node_state() == NodeState::Running,
            final(self).peer_map() == peers_added(old(self).peer_map(), old(self).configured_peers()),
            final(self).tunnel_state() matches Some(t) && t.private_key() == old(
                self,
            ).keys().secret()@ && t.peers() == old(self).configured_peers().map_values(
                |pc: PeerConfig| tunnel_peer_of(pc),
            ),
    {
        let _ = self.start_begin();
        self.start_finish()
    }
}

} // verus!
