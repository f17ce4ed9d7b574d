//! Bookkeeping for datagram routing: per-address packet counts and the
//! events they give, and a bounded pool of connections. Sockets and channels
//! are left to the caller.

use vstd::prelude::*;
use std::sync::Arc;
use std::time::Instant;
use tokio::net::UdpSocket;
use crate::errors::Error;
use crate::net::SocketAddress;

verus! {

/// An asynchronous UDP socket, carried as it is.
#[verifier::external_type_specification]
#[verifier::external_body]
pub struct ExUdpSocket(UdpSocket);

/// Another handle on the same socket (`Arc::clone`).
#[verifier::external_body]
fn share_socket(s: &Arc<UdpSocket>) -> (r: Arc<UdpSocket>)
    ensures
        r == *s,
{
    s.clone()
}

/// What the router reports.
#[derive(Debug)]
pub enum RouterEvent {
    /// A datagram arrived.
    PacketReceived {
        /// Sender.
        from: SocketAddress,
        /// Contents.
        data: Vec<u8>,
    },
    /// A datagram came from an address not seen before.
    PeerConnected(SocketAddress),
    /// An address is no longer in use.
    PeerDisconnected(SocketAddress),
}

/// What is known of one address.
#[derive(Debug, Clone, Copy)]
pub struct ConnectionState {
    /// When it was last seen.
    pub last_seen: Instant,
    /// Datagrams sent to it.
    pub packets_sent: u64,
    /// Datagrams received from it.
    pub packets_received: u64,
}

/// An entry as plain values: the address and its sent and received counts.
pub open spec fn entry_view(e: (SocketAddress, ConnectionState)) -> (SocketAddress, u64, u64) {
    (e.0, e.1.packets_sent, e.1.packets_received)
}

/// Whether `j` is the entry of `addr`.
pub open spec fn is_entry_of(s: Seq<(SocketAddress, u64, u64)>, addr: SocketAddress, j: int) -> bool {
    0 <= j < s.len() && s[j].0 == addr
}

/// Whether no two entries have the same address.
pub open spec fn distinct_addresses(s: Seq<(SocketAddress, u64, u64)>) -> bool {
    forall|i: int, j: int|
        0 <= i < s.len() && 0 <= j < s.len() && i != j ==> #[trigger] s[i].0 != #[trigger] s[j].0
}

/// The per-address counts of the router.
pub struct ConnectionTable {
    connections: Vec<(SocketAddress, ConnectionState)>,
}

impl ConnectionTable {
    /// The entries, in the order the addresses were first seen.
    pub closed spec fn entries(&self) -> Seq<(SocketAddress, u64, u64)> {
        self.connections@.map_values(|e: (SocketAddress, ConnectionState)| entry_view(e))
    }

    /// Whether no address has two entries.
    pub open spec fn wf(&self) -> bool {
        distinct_addresses(self.entries())
    }

    /// An empty table.
    pub fn new() -> (t: Self)
        ensures
            t.entries() == Seq::<(SocketAddress, u64, u64)>::empty(),
            t.wf(),
    {
        let t = ConnectionTable { connections: Vec::new() };
        proof {
            assert(t.entries() =~= Seq::<(SocketAddress, u64, u64)>::empty());
        }
        t
    }

    fn find(&self, addr: SocketAddress) -> (r: Option<usize>)
        ensures
            match r {
                Some(j) => is_entry_of(self.entries(), addr, j as int),
                None => forall|j: int| !is_entry_of(self.entries(), addr, j),
            },
    {
        let mut i: usize = 0;
        while i < self.connections.len()
            invariant
                i <= self.connections@.len(),
                forall|k: int| 0 <= k < i ==> self.connections@[k].0 != addr,
            decreases self.connections@.len() - i,
        {
            if self.connections[i].0 == addr {
                return Some(i);
            }
            i = i + 1;
        }
        None
    }

    /// The counts of an address: datagrams sent to it and received from it.
    pub fn counts(&self, addr: SocketAddress) -> (r: Option<(u64, u64)>)
        ensures
            match r {
                Some((sent, received)) => exists|j: int|
                    is_entry_of(self.entries(), addr, j) && self.entries()[j].1 == sent
                        && self.entries()[j].2 == received,
                None => forall|j: int| !is_entry_of(self.entries(), addr, j),
            },
    {
        match self.find(addr) {
            Some(j) => {
                let st = self.connections[j].1;
                proof {
                    assert(self.entries()[j as int] == entry_view(self.connections@[j as int]));
                }
                Some((st.packets_sent, st.packets_received))
            },
            None => None,
        }
    }

    /// Records a datagram from `from` at `now` and gives the events to report,
    /// in order: for an address not seen before, it gets an entry (nothing
    /// sent, one received) and is reported as connected; otherwise its
    /// received count goes up by one. Either way the datagram is reported.
    pub fn on_datagram(&mut self, from: SocketAddress, data: &[u8], now: Instant) -> (events: Vec<RouterEvent>)
        requires
            old(self).wf(),
            forall|j: int| is_entry_of(old(self).entries(), from, j) ==> old(self).entries()[j].2 < u64::MAX,
        ensures
            final(self).wf(),
            final(self).entries() == record_datagram(old(self).entries(), from),
            (exists|j: int| is_entry_of(old(self).entries(), from, j)) ==> (events@.len() == 1
                && (events@[0] matches RouterEvent::PacketReceived { from: f, data: d } && f == from
                && d@ == data@) && exists|j: int|
                is_entry_of(old(self).entries(), from, j) && final(self).entries() == old(
                    self,
                ).entries().update(
                    j,
                    (from, old(self).entries()[j].1, (old(self).entries()[j].2 + 1) as u64),
                )),
            (forall|j: int| !is_entry_of(old(self).entries(), from, j)) ==> (events@.len() == 2
                && events@[0] == RouterEvent::PeerConnected(from)
                && (events@[1] matches RouterEvent::PacketReceived { from: f, data: d } && f == from
                && d@ == data@) && final(self).entries() == old(self).entries().push(
                (from, 0u64, 1u64),
            )),
    {
        let mut events: Vec<RouterEvent> = Vec::new();
        let ghost before = self.entries();
        match self.find(from) {
            Some(j) => {
                let mut st = self.connections[j].1;
                proof {
                    assert(before[j as int] == entry_view(self.connections@[j as int]));
                }
                st.last_seen = now;
                st.packets_received = st.packets_received + 1;
                self.connections.set(j, (from, st));
                proof {
                    assert(self.entries() =~= before.update(
                        j as int,
                        (from, before[j as int].1, (before[j as int].2 + 1) as u64),
                    ));
                    let c = choose|k: int| is_entry_of(before, from, k);
                    assert(is_entry_of(before, from, j as int));
                    if c != j as int {
                        assert(before[c].0 != before[j as int].0);
                    }
                    assert(distinct_addresses(self.entries())) by {
                        assert forall|a: int, b: int|
                            0 <= a < self.entries().len() && 0 <= b < self.entries().len() && a
                                != b implies #[trigger] self.entries()[a].0
                            != #[trigger] self.entries()[b].0 by {
                            assert(before[a].0 != before[b].0);
                        }
                    }
                }
            },
            None => {
                self.connections.push(
                    (from, ConnectionState { last_seen: now, packets_sent: 0, packets_received: 1 }),
                );
                proof {
                    assert(self.entries() =~= before.push((from, 0u64, 1u64)));
                    assert(distinct_addresses(self.entries())) by {
                        assert forall|a: int, b: int|
                            0 <= a < self.entries().len() && 0 <= b < self.entries().len() && a
                                != b implies #[trigger] self.entries()[a].0
                            != #[trigger] self.entries()[b].0 by {
                            if a < before.len() && b < before.len() {
                                assert(before[a].0 != before[b].0);
                            } else if a < before.len() {
                                assert(!is_entry_of(before, from, a));
                            } else {
                                assert(!is_entry_of(before, from, b));
                            }
                        }
                    }
                }
                events.push(RouterEvent::PeerConnected(from));
            },
        }
        let mut copy: Vec<u8> = Vec::new();
        crate::wire::push_slice(&mut copy, data);
        proof {
            assert(copy@ =~= data@);
        }
        events.push(RouterEvent::PacketReceived { from, data: copy });
        events
    }

    /// Records a datagram sent to `to` at `now`: a known address's sent count
    /// goes up by one; an unknown address is not recorded.
    pub fn on_send(&mut self, to: SocketAddress, now: Instant)
        requires
            old(self).wf(),
            forall|j: int| is_entry_of(old(self).entries(), to, j) ==> old(self).entries()[j].1 < u64::MAX,
        ensures
            final(self).wf(),
            forall|j: int|
                is_entry_of(old(self).entries(), to, j) ==> final(self).entries() == old(
                    self,
                ).entries().update(
                    j,
                    (to, (old(self).entries()[j].1 + 1) as u64, old(self).entries()[j].2),
                ),
            (forall|j: int| !is_entry_of(old(self).entries(), to, j)) ==> final(self).entries()
                == old(self).entries(),
    {
        let ghost before = self.entries();
        match self.find(to) {
            Some(j) => {
                let mut st = self.connections[j].1;
                proof {
                    assert(before[j as int] == entry_view(self.connections@[j as int]));
                }
                st.last_seen = now;
                st.packets_sent = st.packets_sent + 1;
                self.connections.set(j, (to, st));
                proof {
                    assert(self.entries() =~= before.update(
                        j as int,
                        (to, (before[j as int].1 + 1) as u64, before[j as int].2),
                    ));
                    assert forall|k: int| is_entry_of(before, to, k) implies k == j by {
                        if k != j {
                            assert(before[k].0 != before[j as int].0);
                        }
                    }
                    assert(distinct_addresses(self.entries())) by {
                        assert forall|a: int, b: int|
                            0 <= a < self.entries().len() && 0 <= b < self.entries().len() && a
                                != b implies #[trigger] self.entries()[a].0
                            != #[trigger] self.entries()[b].0 by {
                            assert(before[a].0 != before[b].0);
                        }
                    }
                }
            },
            None => {},
        }
    }

    /// The number of addresses seen.
    pub fn get_connection_count(&self) -> (n: usize)
        ensures
            n == self.entries().len(),
    {
        self.connections.len()
    }
}

/// The entries after a datagram from `a`: the received count of a known
/// address goes up by one; an unknown address is added with nothing sent and
/// one received.
pub open spec fn record_datagram(s: Seq<(SocketAddress, u64, u64)>, a: SocketAddress) -> Seq<
    (SocketAddress, u64, u64),
> {
    if exists|j: int| is_entry_of(s, a, j) {
        let j = choose|j: int| is_entry_of(s, a, j);
        s.update(j, (a, s[j].1, (s[j].2 + 1) as u64))
    } else {
        s.push((a, 0u64, 1u64))
    }
}

/// The entries after datagrams from each address of `addrs` in turn.
pub open spec fn record_all(s: Seq<(SocketAddress, u64, u64)>, addrs: Seq<SocketAddress>) -> Seq<
    (SocketAddress, u64, u64),
>
    decreases addrs.len(),
{
    if addrs.len() == 0 {
        s
    } else {
        record_datagram(record_all(s, addrs.drop_last()), addrs.last())
    }
}

/// The addresses of `addrs` in the order they first appear, each once.
pub open spec fn first_seen(addrs: Seq<SocketAddress>) -> Seq<SocketAddress>
    decreases addrs.len(),
{
    if addrs.len() == 0 {
        Seq::empty()
    } else if addrs.drop_last().contains(addrs.last()) {
        first_seen(addrs.drop_last())
    } else {
        first_seen(addrs.drop_last()).push(addrs.last())
    }
}

/// How many times `a` occurs in `addrs`.
pub open spec fn occurrences(addrs: Seq<SocketAddress>, a: SocketAddress) -> nat
    decreases addrs.len(),
{
    if addrs.len() == 0 {
        0
    } else {
        occurrences(addrs.drop_last(), a) + if addrs.last() == a {
            1nat
        } else {
            0nat
        }
    }
}

/// Whether some entry of `s` is for `a`.
pub open spec fn has_entry(s: Seq<(SocketAddress, u64, u64)>, a: SocketAddress) -> bool {
    exists|j: int| is_entry_of(s, a, j)
}

proof fn lemma_first_seen(addrs: Seq<SocketAddress>)
    ensures
        forall|x: SocketAddress| #[trigger] first_seen(addrs).contains(x) <==> addrs.contains(x),
        first_seen(addrs).no_duplicates(),
        first_seen(addrs).len() <= addrs.len(),
    decreases addrs.len(),
{
    broadcast use vstd::seq_lib::group_seq_properties;

    if addrs.len() > 0 {
        let p = addrs.drop_last();
        let a = addrs.last();
        lemma_first_seen(p);
        assert(addrs =~= p.push(a));
        if !p.contains(a) {
            let fs = first_seen(p);
            let f2 = fs.push(a);
            assert forall|i: int, j: int|
                0 <= i < f2.len() && 0 <= j < f2.len() && i != j implies f2[i] != f2[j] by {
                if i < fs.len() && j < fs.len() {
                } else if i < fs.len() {
                    assert(fs.contains(fs[i]));
                } else {
                    assert(fs.contains(fs[j]));
                }
            }
        }
    }
}

proof fn lemma_occurrences(addrs: Seq<SocketAddress>, a: SocketAddress)
    ensures
        occurrences(addrs, a) <= addrs.len(),
        !addrs.contains(a) ==> occurrences(addrs, a) == 0,
    decreases addrs.len(),
{
    broadcast use vstd::seq_lib::group_seq_properties;

    if addrs.len() > 0 {
        let p = addrs.drop_last();
        lemma_occurrences(p, a);
        assert(addrs =~= p.push(addrs.last()));
    }
}

/// Datagrams from addresses not seen before, received in turn: the entries
/// seen before stay as they were, and after them come the new addresses in
/// the order they first arrived, each with nothing sent and as many received
/// as datagrams came from it. So the number of addresses grows by the number
/// of distinct new ones, and an address is known afterwards exactly when it
/// was known before or sent a datagram. Each datagram's address is new to the
/// table just before it (and so is reported as connected) exactly when it did
/// not send an earlier one of these datagrams.
pub proof fn lemma_datagrams_in_turn(s: Seq<(SocketAddress, u64, u64)>, addrs: Seq<SocketAddress>)
    requires
        distinct_addresses(s),
        forall|i: int| 0 <= i < addrs.len() ==> !has_entry(s, #[trigger] addrs[i]),
        addrs.len() < u64::MAX,
    ensures
        distinct_addresses(record_all(s, addrs)),
        record_all(s, addrs).len() == s.len() + first_seen(addrs).len(),
        record_all(s, addrs).subrange(0, s.len() as int) == s,
        forall|k: int|
            0 <= k < first_seen(addrs).len() ==> #[trigger] record_all(s, addrs)[s.len() + k] == (
                first_seen(addrs)[k],
                0u64,
                occurrences(addrs, first_seen(addrs)[k]) as u64,
            ),
        forall|a: SocketAddress|
            #[trigger] has_entry(record_all(s, addrs), a) <==> has_entry(s, a) || addrs.contains(a),
        forall|i: int|
            0 <= i < addrs.len() ==> (!has_entry(record_all(s, addrs.take(i)), addrs[i])
                <==> !(#[trigger] addrs.take(i)).contains(addrs[i])),
    decreases addrs.len(),
{
    broadcast use vstd::seq_lib::group_seq_properties;

    lemma_first_seen(addrs);
    if addrs.len() == 0 {
        assert(s.subrange(0, s.len() as int) =~= s);
    } else {
        let p = addrs.drop_last();
        let a = addrs.last();
        assert(addrs =~= p.push(a));
        assert forall|i: int| 0 <= i < p.len() implies !has_entry(s, #[trigger] p[i]) by {
            assert(p[i] == addrs[i]);
        }
        lemma_datagrams_in_turn(s, p);
        lemma_first_seen(p);
        let r = record_all(s, p);
        let fs = first_seen(p);
        assert(!has_entry(s, a)) by {
            assert(addrs[addrs.len() - 1] == a);
        }
        assert forall|x: SocketAddress| p.contains(x) implies occurrences(p, x) < u64::MAX by {
            lemma_occurrences(p, x);
        }
        if p.contains(a) {
            // a is known: its entry is past the old ones
            assert(fs.contains(a));
            let k = choose|k: int| 0 <= k < fs.len() && fs[k] == a;
            assert(r[s.len() + k] == (fs[k], 0u64, occurrences(p, fs[k]) as u64));
            assert(is_entry_of(r, a, s.len() + k));
            let j = choose|j: int| is_entry_of(r, a, j);
            if j != s.len() + k {
                assert(r[j].0 != r[s.len() + k].0);
            }
            lemma_occurrences(p, a);
            let r2 = record_all(s, addrs);
            assert(r2 == r.update(s.len() + k, (a, r[s.len() + k].1, (r[s.len() + k].2 + 1) as u64)));
            assert(first_seen(addrs) == fs);
            assert(distinct_addresses(r2)) by {
                assert forall|x: int, y: int|
                    0 <= x < r2.len() && 0 <= y < r2.len() && x != y implies #[trigger] r2[x].0
                    != #[trigger] r2[y].0 by {
                    assert(r[x].0 != r[y].0);
                }
            }
            assert(r2.subrange(0, s.len() as int) =~= r.subrange(0, s.len() as int));
            assert forall|kk: int| 0 <= kk < fs.len() implies #[trigger] r2[s.len() + kk] == (
                fs[kk],
                0u64,
                occurrences(addrs, fs[kk]) as u64,
            ) by {
                assert(r[s.len() + kk] == (fs[kk], 0u64, occurrences(p, fs[kk]) as u64));
                if kk != k {
                    assert(fs[kk] != fs[k]);
                }
            }
            assert forall|x: SocketAddress| #[trigger] has_entry(r2, x) <==> has_entry(s, x) || addrs.contains(x) by {
                if has_entry(r2, x) {
                    let jj = choose|jj: int| is_entry_of(r2, x, jj);
                    assert(is_entry_of(r, x, jj));
                }
                if has_entry(r, x) {
                    let jj = choose|jj: int| is_entry_of(r, x, jj);
                    assert(is_entry_of(r2, x, jj));
                }
            }
        } else {
            assert(!fs.contains(a));
            assert(!has_entry(r, a));
            let r2 = record_all(s, addrs);
            assert(r2 == r.push((a, 0u64, 1u64)));
            assert(first_seen(addrs) == fs.push(a));
            lemma_occurrences(p, a);
            assert(distinct_addresses(r2)) by {
                assert forall|x: int, y: int|
                    0 <= x < r2.len() && 0 <= y < r2.len() && x != y implies #[trigger] r2[x].0
                    != #[trigger] r2[y].0 by {
                    if x < r.len() && y < r.len() {
                        assert(r[x].0 != r[y].0);
                    } else if x < r.len() {
                        assert(!is_entry_of(r, a, x));
                    } else {
                        assert(!is_entry_of(r, a, y));
                    }
                }
            }
            assert(r2.subrange(0, s.len() as int) =~= r.subrange(0, s.len() as int));
            assert forall|kk: int| 0 <= kk < first_seen(addrs).len() implies #[trigger] r2[s.len() + kk] == (
                first_seen(addrs)[kk],
                0u64,
                occurrences(addrs, first_seen(addrs)[kk]) as u64,
            ) by {
                if kk < fs.len() {
                    assert(r[s.len() + kk] == (fs[kk], 0u64, occurrences(p, fs[kk]) as u64));
                    assert(fs.contains(fs[kk]));
                    assert(fs[kk] != a);
                }
            }
            assert forall|x: SocketAddress| #[trigger] has_entry(r2, x) <==> has_entry(s, x) || addrs.contains(x) by {
                if has_entry(r2, x) {
                    let jj = choose|jj: int| is_entry_of(r2, x, jj);
                    if jj < r.len() {
                        assert(is_entry_of(r, x, jj));
                    }
                }
                if has_entry(r, x) {
                    let jj = choose|jj: int| is_entry_of(r, x, jj);
                    assert(is_entry_of(r2, x, jj));
                }
                if x == a {
                    assert(is_entry_of(r2, x, r.len() as int));
                }
            }
        }
        assert forall|i: int|
            0 <= i < addrs.len() implies (!has_entry(record_all(s, addrs.take(i)), addrs[i])
                <==> !(#[trigger] addrs.take(i)).contains(addrs[i])) by {
            if i < p.len() {
                assert(addrs.take(i) =~= p.take(i));
                assert(addrs[i] == p[i]);
            } else {
                assert(addrs.take(i) =~= p);
            }
        }
    }
}

/// A connection kept in a pool.
#[derive(Debug)]
pub struct ConnectionHandle {
    /// The peer's id.
    pub peer_id: String,
    /// The socket.
    pub socket: Arc<UdpSocket>,
    /// The endpoint.
    pub endpoint: Option<SocketAddress>,
    /// When the connection was added.
    pub created_at: Instant,
}

impl Clone for ConnectionHandle {
    fn clone(&self) -> (r: Self)
        ensures
            r == *self,
    {
        ConnectionHandle {
            peer_id: self.peer_id.clone(),
            socket: share_socket(&self.socket),
            endpoint: self.endpoint,
            created_at: self.created_at,
        }
    }
}

/// The handles of `s` whose flag in `fresh` is set, in order.
pub open spec fn kept(s: Seq<ConnectionHandle>, fresh: Seq<bool>) -> Seq<ConnectionHandle>
    decreases s.len(),
{
    if s.len() == 0 || fresh.len() != s.len() {
        Seq::empty()
    } else if fresh.last() {
        kept(s.drop_last(), fresh.drop_last()).push(s.last())
    } else {
        kept(s.drop_last(), fresh.drop_last())
    }
}

/// The handles without those of `peer_id`, in order.
pub open spec fn without_peer(s: Seq<ConnectionHandle>, peer_id: Seq<char>) -> Seq<ConnectionHandle> {
    s.filter(|c: ConnectionHandle| c.peer_id@ != peer_id)
}

/// A pool of at most a given number of connections.
pub struct ConnectionPool {
    max_connections: usize,
    connections: Vec<ConnectionHandle>,
}

impl ConnectionPool {
    /// The connections, in the order they were added.
    pub closed spec fn handles(&self) -> Seq<ConnectionHandle> {
        self.connections@
    }

    /// The capacity.
    pub closed spec fn capacity(&self) -> nat {
        self.max_connections as nat
    }

    /// An empty pool of the given capacity.
    pub fn new(max_connections: usize) -> (p: Self)
        ensures
            p.capacity() == max_connections,
            p.handles() == Seq::<ConnectionHandle>::empty(),
    {
        ConnectionPool { max_connections, connections: Vec::new() }
    }

    /// Adds a connection, given for each present connection whether it is
    /// younger than five minutes: when the pool is full, the older ones are
    /// dropped first; if it is still full, it fails with a network error
    /// "Connection pool full" (the older ones stay dropped); otherwise the
    /// connection is added at the end.
    pub fn add_connection_with(
        &mut self,
        peer_id: String,
        socket: Arc<UdpSocket>,
        endpoint: SocketAddress,
        now: Instant,
        fresh: &Vec<bool>,
    ) -> (r: Result<(), Error>)
        requires
            fresh@.len() == old(self).handles().len(),
        ensures
            final(self).capacity() == old(self).capacity(),
            old(self).handles().len() < old(self).capacity() ==> (r is Ok && final(self).handles()
                == old(self).handles().push(
                ConnectionHandle { peer_id, socket, endpoint: Some(endpoint), created_at: now },
            )),
            old(self).handles().len() >= old(self).capacity() && kept(
                old(self).handles(),
                fresh@,
            ).len() >= old(self).capacity() ==> (r matches Err(Error::Network(m)) && m@
                == "Connection pool full"@ && final(self).handles() == kept(
                old(self).handles(),
                fresh@,
            )),
            old(self).handles().len() >= old(self).capacity() && kept(
                old(self).handles(),
                fresh@,
            ).len() < old(self).capacity() ==> (r is Ok && final(self).handles() == kept(
                old(self).handles(),
                fresh@,
            ).push(ConnectionHandle { peer_id, socket, endpoint: Some(endpoint), created_at: now })),
    {
        if self.connections.len() >= self.max_connections {
            let mut keep: Vec<ConnectionHandle> = Vec::new();
            let mut i: usize = 0;
            let ghost orig = self.connections@;
            while i < self.connections.len()
                invariant
                    i <= self.connections@.len(),
                    self.connections@ == orig,
                    fresh@.len() == orig.len(),
                    keep@ == kept(orig.subrange(0, i as int), fresh@.subrange(0, i as int)),
                decreases self.connections@.len() - i,
            {
                proof {
                    assert(orig.subrange(0, i + 1).drop_last() =~= orig.subrange(0, i as int));
                    assert(fresh@.subrange(0, i + 1).drop_last() =~= fresh@.subrange(0, i as int));
                }
                if fresh[i] {
                    keep.push(self.connections[i].clone());
                }
                i = i + 1;
            }
            proof {
                assert(orig.subrange(0, i as int) =~= orig);
                assert(fresh@.subrange(0, i as int) =~= fresh@);
            }
            self.connections = keep;
            if self.connections.len() >= self.max_connections {
                return Err(Error::Network(String::from_str("Connection pool full")));
            }
        }
        self.connections.push(
            ConnectionHandle { peer_id, socket, endpoint: Some(endpoint), created_at: now },
        );
        Ok(())
    }

    /// Adds a connection now (see [`add_connection_with`]); which connections
    /// are younger than five minutes is read from the clock.
    pub fn add_connection(&mut self, peer_id: String, socket: Arc<UdpSocket>, endpoint: SocketAddress) -> (r: Result<(), Error>)
        ensures
            final(self).capacity() == old(self).capacity(),
            old(self).handles().len() < old(self).capacity() ==> r is Ok && final(self).handles().len()
                == old(self).handles().len() + 1,
            r is Ok ==> final(self).handles().len() > 0 && final(self).handles().last().peer_id
                == peer_id && final(self).handles().last().endpoint == Some(endpoint),
            r is Ok ==> exists|fresh: Seq<bool>|
                #[trigger] fresh.len() == old(self).handles().len() && final(self).handles().drop_last() == (
                if old(self).handles().len() < old(self).capacity() {
                    old(self).handles()
                } else {
                    kept(old(self).handles(), fresh)
                }),
            r is Err ==> (r matches Err(Error::Network(m)) && m@ == "Connection pool full"@),
    {
        let now = crate::clock::now();
        let mut fresh: Vec<bool> = Vec::new();
        let mut i: usize = 0;
        while i < self.connections.len()
            invariant
                i <= self.connections@.len(),
                fresh@.len() == i,
            decreases self.connections@.len() - i,
        {
            fresh.push(crate::clock::elapsed_less_than(&self.connections[i].created_at, 300));
            i = i + 1;
        }
        let ghost peer = peer_id;
        let r = self.add_connection_with(peer_id, socket, endpoint, now, &fresh);
        proof {
            if r is Ok {
                assert(self.handles().drop_last() =~= (if old(self).handles().len() < old(
                    self,
                ).capacity() {
                    old(self).handles()
                } else {
                    kept(old(self).handles(), fresh@)
                }));
                assert(fresh@.len() == old(self).handles().len());
            }
        }
        r
    }

    /// Removes every connection of `peer_id`.
    pub fn remove_connection(&mut self, peer_id: &str) -> (r: Result<(), Error>)
        ensures
            r is Ok,
            final(self).capacity() == old(self).capacity(),
            final(self).handles() == without_peer(old(self).handles(), peer_id@),
    {
        let target = String::from_str(peer_id);
        let mut keep: Vec<ConnectionHandle> = Vec::new();
        let mut i: usize = 0;
        let ghost orig = self.connections@;
        while i < self.connections.len()
            invariant
                i <= self.connections@.len(),
                self.connections@ == orig,
                target@ == peer_id@,
                keep@ == without_peer(orig.subrange(0, i as int), peer_id@),
            decreases self.connections@.len() - i,
        {
            let c = self.connections[i].clone();
            proof {
                assert(orig.subrange(0, i + 1).drop_last() =~= orig.subrange(0, i as int));
                reveal_with_fuel(Seq::filter, 1);
            }
            if c.peer_id != target {
                keep.push(c);
            }
            i = i + 1;
        }
        proof {
            assert(orig.subrange(0, i as int) =~= orig);
        }
        self.connections = keep;
        Ok(())
    }

    /// The first connection of `peer_id`, if any.
    pub fn get_connection(&self, peer_id: &str) -> (r: Option<ConnectionHandle>)
        ensures
            match r {
                Some(c) => exists|j: int|
                    0 <= j < self.handles().len() && c == self.handles()[j] && c.peer_id@ == peer_id@
                        && forall|k: int| 0 <= k < j ==> #[trigger] self.handles()[k].peer_id@ != peer_id@,
                None => forall|j: int|
                    0 <= j < self.handles().len() ==> #[trigger] self.handles()[j].peer_id@ != peer_id@,
            },
    {
        let target = String::from_str(peer_id);
        let mut i: usize = 0;
        while i < self.connections.len()
            invariant
                i <= self.connections@.len(),
                target@ == peer_id@,
                forall|k: int| 0 <= k < i ==> #[trigger] self.connections@[k].peer_id@ != peer_id@,
            decreases self.connections@.len() - i,
        {
            if self.connections[i].peer_id == target {
                return Some(self.connections[i].clone());
            }
            i = i + 1;
        }
        None
    }
}

} // verus!
