//! A WireGuard-like tunnel: message encodings, per-peer state, and the
//! decisions taken on each packet. Sending and receiving datagrams is left to
//! the caller, who is told what to send and where.

use vstd::prelude::*;
use std::time::Instant;
use crate::crypto::{aead_decrypt, aead_encrypt, chacha20poly1305_seal, aead_length_ok, sha256, sha256_digest, hex_encoding};
use crate::errors::Error;
use crate::net::{SocketAddress, hex_digit};
use crate::wire::{be16_bytes, be32_bytes, be64_bytes, le64_bytes, be32_at, le64_at, push_be16, push_be32, push_be64, push_slice, le64_array, read_be32, read_le64};

verus! {

#[allow(dead_code)]
const WIREGUARD_HEADER_SIZE: usize = 32;

#[allow(dead_code)]
const WIREGUARD_MESSAGE_TYPES: usize = 10;

/// The kinds of message.
#[derive(Debug, Clone, Copy, PartialEq, Eq, Structural)]
pub enum MessageType {
    /// Handshake initiation (1).
    HandshakeInitiation,
    /// Handshake response (2).
    HandshakeResponse,
    /// Cookie reply (3).
    CookieReply,
    /// Transport data (4).
    TransportData,
}

/// The number of a kind of message on the wire.
pub open spec fn message_code(t: MessageType) -> u8 {
    match t {
        MessageType::HandshakeInitiation => 1,
        MessageType::HandshakeResponse => 2,
        MessageType::CookieReply => 3,
        MessageType::TransportData => 4,
    }
}

impl MessageType {
    /// The number of this kind of message on the wire.
    pub fn code(self) -> (c: u8)
        ensures
            c == message_code(self),
    {
        match self {
            MessageType::HandshakeInitiation => 1,
            MessageType::HandshakeResponse => 2,
            MessageType::CookieReply => 3,
            MessageType::TransportData => 4,
        }
    }
}

/// A handshake initiation.
#[derive(Debug)]
pub struct HandshakeInitiation {
    /// Sender index.
    pub sender_index: u32,
    /// Ephemeral public value.
    pub ephemeral: [u8; 32],
    /// Encrypted static key.
    pub encrypted_static: Vec<u8>,
    /// Encrypted timestamp.
    pub encrypted_timestamp: Vec<u8>,
    /// First MAC.
    pub mac1: [u8; 16],
    /// Second MAC.
    pub mac2: [u8; 16],
}

/// A handshake response.
#[derive(Debug)]
pub struct HandshakeResponse {
    /// Sender index.
    pub sender_index: u32,
    /// Receiver index.
    pub receiver_index: u32,
    /// Ephemeral public value.
    pub ephemeral: [u8; 32],
    /// Encrypted empty payload.
    pub encrypted_nothing: Vec<u8>,
    /// First MAC.
    pub mac1: [u8; 16],
    /// Second MAC.
    pub mac2: [u8; 16],
}

/// A transport message.
#[derive(Debug)]
pub struct TransportMessage {
    /// Receiver index.
    pub receiver_index: u32,
    /// Counter.
    pub counter: u64,
    /// Encrypted packet.
    pub encrypted_packet: Vec<u8>,
}

/// A peer of the tunnel.
#[derive(Debug)]
pub struct WireGuardPeer {
    /// The peer's public key.
    pub public_key: [u8; 32],
    /// Where the peer is reached, if known.
    pub endpoint: Option<SocketAddress>,
    /// Allowed IP ranges, as text and prefix length.
    pub allowed_ips: Vec<(String, u32)>,
    /// Keepalive interval in seconds (0 for none).
    pub persistent_keepalive: u16,
}

/// A peer as plain values.
pub struct PeerView {
    /// The peer's public key.
    pub public_key: Seq<u8>,
    /// Where the peer is reached, if known.
    pub endpoint: Option<SocketAddress>,
    /// Allowed IP ranges, as text and prefix length.
    pub allowed_ips: Seq<(Seq<char>, u32)>,
    /// Keepalive interval in seconds.
    pub persistent_keepalive: u16,
}

impl View for WireGuardPeer {
    type V = PeerView;

    open spec fn view(&self) -> PeerView {
        PeerView {
            public_key: self.public_key@,
            endpoint: self.endpoint,
            allowed_ips: self.allowed_ips@.map_values(|e: (String, u32)| (e.0@, e.1)),
            persistent_keepalive: self.persistent_keepalive,
        }
    }
}

impl Clone for WireGuardPeer {
    fn clone(&self) -> (r: Self)
        ensures
            r@ == self@,
    {
        let mut allowed_ips: Vec<(String, u32)> = Vec::new();
        let mut i: usize = 0;
        while i < self.allowed_ips.len()
            invariant
                i <= self.allowed_ips@.len(),
                allowed_ips@ == self.allowed_ips@.subrange(0, i as int),
            decreases self.allowed_ips@.len() - i,
        {
            let (text, len) = &self.allowed_ips[i];
            allowed_ips.push((text.clone(), *len));
            i = i + 1;
            proof {
                assert(allowed_ips@ =~= self.allowed_ips@.subrange(0, i as int));
            }
        }
        proof {
            assert(self.allowed_ips@.subrange(0, i as int) =~= self.allowed_ips@);
        }
        let r = WireGuardPeer {
            public_key: self.public_key,
            endpoint: self.endpoint,
            allowed_ips,
            persistent_keepalive: self.persistent_keepalive,
        };
        proof {
            assert(r@.allowed_ips =~= self@.allowed_ips);
        }
        r
    }
}

/// A key with its message counter and the nonce built from it.
#[derive(Debug)]
pub struct EncryptionKey {
    /// The key.
    pub key: [u8; 32],
    /// Messages sent under the key.
    pub counter: u64,
    /// The nonce: four zero bytes, then the counter, least significant byte first.
    pub nonce: [u8; 12],
}

impl Clone for EncryptionKey {
    fn clone(&self) -> (r: Self)
        ensures
            r == *self,
    {
        EncryptionKey { key: self.key, counter: self.counter, nonce: self.nonce }
    }
}

impl EncryptionKey {
    /// A key with counter 0 and a zero nonce.
    pub fn new(key: [u8; 32]) -> (k: Self)
        ensures
            k.key == key,
            k.counter == 0,
            k.nonce@ == Seq::new(12, |i: int| 0u8),
    {
        let k = EncryptionKey { key, counter: 0, nonce: [0u8; 12] };
        proof {
            assert(k.nonce@ =~= Seq::new(12, |i: int| 0u8));
        }
        k
    }

    /// Counts one more message: the counter goes up by one and the last
    /// eight bytes of the nonce become the new counter, least significant
    /// byte first.
    pub fn increment_counter(&mut self)
        requires
            old(self).counter < u64::MAX,
        ensures
            final(self).key == old(self).key,
            final(self).counter == old(self).counter + 1,
            final(self).nonce@ == old(self).nonce@.subrange(0, 4) + le64_bytes(
                final(self).counter as nat,
            ),
    {
        self.counter = self.counter + 1;
        let b = le64_array(self.counter);
        let ghost n0 = self.nonce@;
        self.nonce[4] = b[0];
        self.nonce[5] = b[1];
        self.nonce[6] = b[2];
        self.nonce[7] = b[3];
        self.nonce[8] = b[4];
        self.nonce[9] = b[5];
        self.nonce[10] = b[6];
        self.nonce[11] = b[7];
        proof {
            assert(self.nonce@ =~= n0.subrange(0, 4) + le64_bytes(self.counter as nat));
        }
    }
}

/// The keys of a session.
#[derive(Debug)]
pub struct SessionKeys {
    /// Key for sending.
    pub sending: EncryptionKey,
    /// Key for receiving.
    pub receiving: EncryptionKey,
    /// Raw sending key.
    pub sending_key: [u8; 32],
    /// Raw receiving key.
    pub receiving_key: [u8; 32],
}

struct Session {
    peer_index: u32,
    sending_key: EncryptionKey,
    receiving_key: EncryptionKey,
    #[allow(dead_code)]
    last_used: Instant,
    #[allow(dead_code)]
    local_index: u32,
    remote_index: u32,
}

/// The public key derived from a private key here: the SHA-256 digest of the
/// private key with its first byte's low three bits cleared, and its last
/// byte's top bit cleared and next bit set.
pub open spec fn clamped_digest(private_key: Seq<u8>) -> Seq<u8> {
    let h = sha256(private_key);
    h.update(0, h[0] & 248u8).update(31, (h[31] & 127u8) | 64u8)
}

/// The public key derived from a private key (see [`clamped_digest`]): the
/// 32-byte SHA-256 digest of the private key with byte 0 and byte 31 clamped.
pub fn derive_public_key(private_key: &[u8; 32]) -> (public: [u8; 32])
    ensures
        public@ == clamped_digest(private_key@),
        sha256(private_key@).len() == 32,
        public@[0] == sha256(private_key@)[0] & 248u8,
        public@[31] == (sha256(private_key@)[31] & 127u8) | 64u8,
        forall|i: int| 1 <= i < 31 ==> #[trigger] public@[i] == sha256(private_key@)[i],
{
    let mut public = sha256_digest(private_key);
    let ghost h = public@;
    public[0] = public[0] & 248;
    public[31] = public[31] & 127;
    public[31] = public[31] | 64;
    proof {
        assert(public@ =~= clamped_digest(private_key@));
    }
    public
}

/// A random 32-byte key.
pub fn generate_key() -> (k: [u8; 32]) {
    crate::entropy::random_32()
}

/// A random private key and the public key derived from it.
pub fn generate_keypair() -> (r: Result<([u8; 32], [u8; 32]), Error>)
    ensures
        r matches Ok(kp) && kp.1@ == clamped_digest(kp.0@) && sha256(kp.0@).len() == 32,
{
    let private = generate_key();
    let public = derive_public_key(&private);
    Ok((private, public))
}

/// The 12-byte timestamp for a number of seconds: the seconds as eight bytes,
/// least significant first, then the 32-bit value 1 in the same order.
pub open spec fn timestamp_bytes(secs: nat) -> Seq<u8> {
    le64_bytes(secs) + seq![1u8, 0u8, 0u8, 0u8]
}

/// The timestamp for a number of seconds since the Unix epoch.
pub fn create_timestamp_at(secs: u64) -> (t: [u8; 12])
    ensures
        t@ == timestamp_bytes(secs as nat),
{
    let b = le64_array(secs);
    let t = [b[0], b[1], b[2], b[3], b[4], b[5], b[6], b[7], 1u8, 0u8, 0u8, 0u8];
    proof {
        assert(t@ =~= timestamp_bytes(secs as nat));
    }
    t
}

/// The timestamp for now, or `None` when the system clock is set before the
/// Unix epoch.
pub fn create_timestamp() -> (t: Option<[u8; 12]>)
    ensures
        t matches Some(b) ==> exists|secs: u64| b@ == timestamp_bytes(secs as nat),
{
    match crate::clock::unix_time_secs() {
        Some(secs) => Some(create_timestamp_at(secs)),
        None => None,
    }
}

/// The lower-case hexadecimal text of some bytes.
pub fn hex_encode(data: &[u8]) -> (s: String)
    ensures
        s@ == hex_encoding(data@),
{
    let mut s = String::new();
    let mut i: usize = 0;
    proof {
        assert(data@.skip(0) =~= data@);
    }
    while i < data.len()
        invariant
            i <= data@.len(),
            hex_encoding(data@) == s@ + hex_encoding(data@.skip(i as int)),
        decreases data@.len() - i,
    {
        let b = data[i];
        s.push(hex_digit(b / 16));
        s.push(hex_digit(b % 16));
        proof {
            assert(data@.skip(i as int).skip(1) =~= data@.skip(i + 1));
        }
        i = i + 1;
    }
    proof {
        assert(data@.skip(i as int) =~= Seq::<u8>::empty());
    }
    s
}

/// The encoding of a handshake initiation: type 1, a zero byte, the 16-bit
/// value 28, the sender index, the ephemeral value, the encrypted static key
/// and the encrypted timestamp each after its length (modulo 2^16), then the
/// two MACs; integers most significant byte first.
pub open spec fn initiation_wire(
    sender_index: u32,
    ephemeral: Seq<u8>,
    encrypted_static: Seq<u8>,
    encrypted_timestamp: Seq<u8>,
    mac1: Seq<u8>,
    mac2: Seq<u8>,
) -> Seq<u8> {
    seq![1u8, 0u8] + be16_bytes(28) + be32_bytes(sender_index as nat) + ephemeral + be16_bytes(
        encrypted_static.len() % 0x1_0000,
    ) + encrypted_static + be16_bytes(encrypted_timestamp.len() % 0x1_0000) + encrypted_timestamp
        + mac1 + mac2
}

/// The encoding of a handshake initiation message.
pub open spec fn initiation_bytes(m: HandshakeInitiation) -> Seq<u8> {
    initiation_wire(
        m.sender_index,
        m.ephemeral@,
        m.encrypted_static@,
        m.encrypted_timestamp@,
        m.mac1@,
        m.mac2@,
    )
}

/// The encoding of a handshake response: type 2, a zero byte, the 16-bit
/// value 40, the sender and receiver indices, the ephemeral value, the
/// encrypted payload after its length (modulo 2^16), then the two MACs.
pub open spec fn response_wire(
    sender_index: u32,
    receiver_index: u32,
    ephemeral: Seq<u8>,
    encrypted_nothing: Seq<u8>,
    mac1: Seq<u8>,
    mac2: Seq<u8>,
) -> Seq<u8> {
    seq![2u8, 0u8] + be16_bytes(40) + be32_bytes(sender_index as nat) + be32_bytes(
        receiver_index as nat,
    ) + ephemeral + be16_bytes(encrypted_nothing.len() % 0x1_0000) + encrypted_nothing + mac1 + mac2
}

/// The encoding of a handshake response message.
pub open spec fn response_bytes(m: HandshakeResponse) -> Seq<u8> {
    response_wire(
        m.sender_index,
        m.receiver_index,
        m.ephemeral@,
        m.encrypted_nothing@,
        m.mac1@,
        m.mac2@,
    )
}

/// Encodes a handshake initiation.
pub fn encode_handshake_initiation(msg: &HandshakeInitiation) -> (buf: Vec<u8>)
    ensures
        buf@ == initiation_bytes(*msg),
{
    let mut buf: Vec<u8> = Vec::with_capacity(148);
    buf.push(MessageType::HandshakeInitiation.code());
    buf.push(0);
    push_be16(&mut buf, 28);
    push_be32(&mut buf, msg.sender_index);
    push_slice(&mut buf, &msg.ephemeral);
    push_be16(&mut buf, (msg.encrypted_static.len() % 0x1_0000) as u16);
    push_slice(&mut buf, msg.encrypted_static.as_slice());
    push_be16(&mut buf, (msg.encrypted_timestamp.len() % 0x1_0000) as u16);
    push_slice(&mut buf, msg.encrypted_timestamp.as_slice());
    push_slice(&mut buf, &msg.mac1);
    push_slice(&mut buf, &msg.mac2);
    proof {
        assert(buf@ =~= initiation_bytes(*msg));
    }
    buf
}

/// Encodes a handshake response.
pub fn encode_handshake_response(msg: &HandshakeResponse) -> (buf: Vec<u8>)
    ensures
        buf@ == response_bytes(*msg),
{
    let mut buf: Vec<u8> = Vec::with_capacity(92);
    buf.push(MessageType::HandshakeResponse.code());
    buf.push(0);
    push_be16(&mut buf, 40);
    push_be32(&mut buf, msg.sender_index);
    push_be32(&mut buf, msg.receiver_index);
    push_slice(&mut buf, &msg.ephemeral);
    push_be16(&mut buf, (msg.encrypted_nothing.len() % 0x1_0000) as u16);
    push_slice(&mut buf, msg.encrypted_nothing.as_slice());
    push_slice(&mut buf, &msg.mac1);
    push_slice(&mut buf, &msg.mac2);
    proof {
        assert(buf@ =~= response_bytes(*msg));
    }
    buf
}

/// The nonce whose first four bytes are zero and whose last eight are given.
pub open spec fn suffix_nonce(suffix: Seq<u8>) -> Seq<u8> {
    seq![0u8, 0u8, 0u8, 0u8] + suffix
}

fn nonce_from_suffix(suffix: &[u8; 8]) -> (n: [u8; 12])
    ensures
        n@ == suffix_nonce(suffix@),
{
    let n = [0u8, 0u8, 0u8, 0u8, suffix[0], suffix[1], suffix[2], suffix[3], suffix[4], suffix[5], suffix[6], suffix[7]];
    proof {
        assert(n@ =~= suffix_nonce(suffix@));
    }
    n
}

/// Encrypts under `key` with the nonce made of four zero bytes and `suffix`,
/// and puts the suffix in front of the ciphertext. It fails with a tunnel
/// error "Encryption failed" when the plaintext is too long for the cipher.
pub fn encrypt_with_nonce_suffix(key: &[u8; 32], suffix: &[u8; 8], plaintext: &[u8]) -> (r: Result<Vec<u8>, Error>)
    ensures
        aead_length_ok(plaintext@.len()) ==> (r matches Ok(c) && c@ == suffix@
            + chacha20poly1305_seal(key@, suffix_nonce(suffix@), plaintext@)
            && chacha20poly1305_seal(key@, suffix_nonce(suffix@), plaintext@).len()
            == plaintext@.len() + 16),
        !aead_length_ok(plaintext@.len()) ==> (r matches Err(Error::Tunnel(m)) && m@
            == "Encryption failed"@),
{
    let nonce = nonce_from_suffix(suffix);
    match aead_encrypt(key, &nonce, plaintext) {
        Ok(c) => {
            let mut result: Vec<u8> = Vec::new();
            push_slice(&mut result, suffix);
            push_slice(&mut result, c.as_slice());
            Ok(result)
        },
        Err(_) => Err(Error::Tunnel(String::from_str("Encryption failed"))),
    }
}

fn random_suffix() -> (s: [u8; 8]) {
    let mut s = [0u8; 8];
    crate::entropy::fill_random(&mut s);
    s
}

/// Whether two keys have the same bytes.
pub fn same_key(a: &[u8; 32], b: &[u8; 32]) -> (r: bool)
    ensures
        r == (a@ == b@),
{
    let mut i: usize = 0;
    while i < 32
        invariant
            i <= 32,
            forall|k: int| 0 <= k < i ==> a@[k] == b@[k],
        decreases 32 - i,
    {
        if a[i] != b[i] {
            return false;
        }
        i = i + 1;
    }
    proof {
        assert(a@ =~= b@);
    }
    true
}

/// Whether `i` is the first peer with public key `key`.
pub open spec fn is_first_peer(peers: Seq<PeerView>, key: Seq<u8>, i: int) -> bool {
    0 <= i < peers.len() && peers[i].public_key == key && forall|k: int|
        0 <= k < i ==> #[trigger] peers[k].public_key != key
}

/// Whether some peer has public key `key`.
pub open spec fn has_peer(peers: Seq<PeerView>, key: Seq<u8>) -> bool {
    exists|i: int| 0 <= i < peers.len() && #[trigger] peers[i].public_key == key
}

/// The endpoint of the first peer with public key `key` (`None` inside when
/// that peer has none), or `None` when there is no such peer.
pub open spec fn peer_endpoint(peers: Seq<PeerView>, key: Seq<u8>) -> Option<
    Option<SocketAddress>,
> {
    if has_peer(peers, key) {
        Some(peers[choose|i: int| is_first_peer(peers, key, i)].endpoint)
    } else {
        None
    }
}

/// Whether some peer is reached at `addr`.
pub open spec fn has_peer_at(peers: Seq<PeerView>, addr: SocketAddress) -> bool {
    exists|i: int| 0 <= i < peers.len() && #[trigger] peers[i].endpoint == Some(addr)
}

/// The peers without those whose public key is `key`, in order.
pub open spec fn without_key(peers: Seq<PeerView>, key: Seq<u8>) -> Seq<PeerView> {
    peers.filter(|p: PeerView| p.public_key != key)
}

/// What the caller is to do after a packet was handled.
#[derive(Debug)]
pub enum PacketAction {
    /// Nothing.
    Nothing,
    /// Send these bytes to this address.
    Reply(Vec<u8>, SocketAddress),
    /// Hand this decrypted packet on.
    Deliver(Vec<u8>),
}

/// The big-endian 32-bit value of the first four bytes of a key.
pub open spec fn key_index(key: Seq<u8>) -> nat {
    be32_at(key, 0)
}

/// The state of a tunnel: its keys, its peers, its sessions and the next
/// sender index.
pub struct WireGuardTunnel {
    local_private_key: [u8; 32],
    local_public_key: [u8; 32],
    peers: Vec<WireGuardPeer>,
    sessions: Vec<Session>,
    next_sender_index: u32,
}

/// Whether `i` is the first session with remote index `idx`.
spec fn is_first_session_remote(s: Seq<Session>, idx: u32, i: int) -> bool {
    0 <= i < s.len() && s[i].remote_index == idx && forall|k: int|
        0 <= k < i ==> #[trigger] s[k].remote_index != idx
}

/// Whether `i` is the first session with peer index `idx`.
spec fn is_first_session_peer(s: Seq<Session>, idx: u32, i: int) -> bool {
    0 <= i < s.len() && s[i].peer_index == idx && forall|k: int|
        0 <= k < i ==> #[trigger] s[k].peer_index != idx
}

spec fn receiving_key_in(s: Seq<Session>, idx: u32) -> Option<Seq<u8>> {
    if exists|i: int| is_first_session_remote(s, idx, i) {
        Some(s[choose|i: int| is_first_session_remote(s, idx, i)].receiving_key.key@)
    } else {
        None
    }
}

spec fn sending_session_in(s: Seq<Session>, idx: u32) -> Option<(u32, u64, Seq<u8>)> {
    if exists|i: int| is_first_session_peer(s, idx, i) {
        let x = s[choose|i: int| is_first_session_peer(s, idx, i)];
        Some((x.remote_index, x.sending_key.counter, x.sending_key.key@))
    } else {
        None
    }
}

/// The views of some peers.
pub open spec fn peer_views(peers: Seq<WireGuardPeer>) -> Seq<PeerView> {
    peers.map_values(|p: WireGuardPeer| p@)
}

impl WireGuardTunnel {
    /// The private key.
    pub closed spec fn private_key(&self) -> Seq<u8> {
        self.local_private_key@
    }

    /// The public key.
    pub closed spec fn public_key(&self) -> Seq<u8> {
        self.local_public_key@
    }

    /// The peers, in the order they were added.
    pub closed spec fn peers(&self) -> Seq<PeerView> {
        peer_views(self.peers@)
    }

    /// The next sender index to hand out.
    pub closed spec fn next_index(&self) -> u32 {
        self.next_sender_index
    }

    /// The receiving key of the first session whose remote index is `idx`.
    pub closed spec fn receiving_key_for(&self, idx: u32) -> Option<Seq<u8>> {
        receiving_key_in(self.sessions@, idx)
    }

    /// The remote index, sending counter and sending key of the first session
    /// whose peer index is `idx`.
    pub closed spec fn sending_session_for(&self, idx: u32) -> Option<(u32, u64, Seq<u8>)> {
        sending_session_in(self.sessions@, idx)
    }

    /// Whether the public key is the one derived from the private key.
    pub closed spec fn wf(&self) -> bool {
        self.local_public_key@ == clamped_digest(self.local_private_key@)
    }

    /// Whether two states differ at most in their peers.
    pub open spec fn same_but_peers(&self, other: &Self) -> bool {
        &&& self.private_key() == other.private_key()
        &&& self.public_key() == other.public_key()
        &&& self.next_index() == other.next_index()
        &&& forall|idx: u32| #[trigger] self.receiving_key_for(idx) == other.receiving_key_for(idx)
        &&& forall|idx: u32| #[trigger] self.sending_session_for(idx) == other.sending_session_for(idx)
    }

    /// A tunnel with the given private key, or a random one, and the public
    /// key derived from it; no peers, no sessions, sender indices from 1.
    pub fn new(private_key: Option<[u8; 32]>) -> (t: Self)
        ensures
            t.wf(),
            t.public_key() == clamped_digest(t.private_key()),
            private_key matches Some(k) ==> t.private_key() == k@,
            t.peers() == Seq::<PeerView>::empty(),
            t.next_index() == 1,
            forall|idx: u32| #[trigger] t.receiving_key_for(idx) is None,
            forall|idx: u32| #[trigger] t.sending_session_for(idx) is None,
    {
        let private = match private_key {
            Some(k) => k,
            None => generate_key(),
        };
        let public = derive_public_key(&private);
        WireGuardTunnel {
            local_private_key: private,
            local_public_key: public,
            peers: Vec::new(),
            sessions: Vec::new(),
            next_sender_index: 1,
        }
    }

    /// The public key.
    pub fn local_public_key(&self) -> (k: [u8; 32])
        ensures
            k@ == self.public_key(),
    {
        self.local_public_key
    }

    /// Adds a peer at the end.
    pub fn add_peer(&mut self, peer: WireGuardPeer)
        ensures
            final(self).peers() == old(self).peers().push(peer@),
            final(self).same_but_peers(old(self)),
            old(self).wf() ==> final(self).wf(),
    {
        self.peers.push(peer);
    }

    /// Removes every peer with the given public key.
    pub fn remove_peer(&mut self, public_key: &[u8; 32])
        ensures
            final(self).peers() == without_key(old(self).peers(), public_key@),
            final(self).same_but_peers(old(self)),
            old(self).wf() ==> final(self).wf(),
    {
        let mut kept: Vec<WireGuardPeer> = Vec::new();
        let mut i: usize = 0;
        let ghost orig = peer_views(self.peers@);
        while i < self.peers.len()
            invariant
                i <= self.peers@.len(),
                orig == peer_views(self.peers@),
                peer_views(kept@) == without_key(orig.subrange(0, i as int), public_key@),
            decreases self.peers@.len() - i,
        {
            let p = self.peers[i].clone();
            let ghost before = kept@;
            proof {
                assert(orig.subrange(0, i + 1).drop_last() =~= orig.subrange(0, i as int));
                assert(orig.subrange(0, i + 1).last() == p@);
                reveal_with_fuel(Seq::filter, 1);
            }
            if !same_key(&p.public_key, public_key) {
                kept.push(p);
                proof {
                    assert(peer_views(kept@) =~= peer_views(before).push(p@));
                }
            }
            i = i + 1;
        }
        proof {
            assert(orig.subrange(0, i as int) =~= orig);
        }
        self.peers = kept;
    }

    /// Hands out the next sender index; the counter wraps after `u32::MAX`.
    pub fn allocate_sender_index(&mut self) -> (index: u32)
        ensures
            index == old(self).next_index(),
            final(self).next_index() == (if index == u32::MAX {
                0
            } else {
                (index + 1) as u32
            }),
            final(self).same_but_index(old(self)),
            old(self).wf() ==> final(self).wf(),
    {
        let index = self.next_sender_index;
        self.next_sender_index = index.wrapping_add(1);
        index
    }
}


/// `n` zero bytes.
pub open spec fn zeros(n: nat) -> Seq<u8> {
    Seq::new(n, |i: int| 0u8)
}

/// The encrypted-with-suffix form that the handshake uses: the nonce suffix,
/// then the ciphertext under the nonce of four zero bytes and the suffix.
pub open spec fn suffixed_seal(key: Seq<u8>, suffix: Seq<u8>, plaintext: Seq<u8>) -> Seq<u8> {
    suffix + chacha20poly1305_seal(key, suffix_nonce(suffix), plaintext)
}

/// The initiation sent to a peer for given random values: sender index
/// `index`, the ephemeral value, the public key encrypted under the private
/// key, the timestamp encrypted under the private key, and zero MACs.
pub open spec fn initiation_for(
    private_key: Seq<u8>,
    public_key: Seq<u8>,
    index: u32,
    ephemeral: Seq<u8>,
    static_suffix: Seq<u8>,
    timestamp_suffix: Seq<u8>,
    timestamp: Seq<u8>,
) -> Seq<u8> {
    initiation_wire(
        index,
        ephemeral,
        suffixed_seal(private_key, static_suffix, public_key),
        suffixed_seal(private_key, timestamp_suffix, timestamp),
        zeros(16),
        zeros(16),
    )
}

/// Whether `msg` is the 168-byte initiation (see [`initiation_for`]) for some
/// 32-byte ephemeral value, some 8-byte nonce suffixes and the timestamp of
/// some number of seconds, in which the encrypted static key is 48 bytes and
/// the encrypted timestamp 28 bytes after their suffixes.
pub open spec fn fresh_initiation(private_key: Seq<u8>, public_key: Seq<u8>, index: u32, msg: Seq<u8>) -> bool {
    exists|ephemeral: Seq<u8>, static_suffix: Seq<u8>, timestamp_suffix: Seq<u8>, secs: u64|
        #![trigger initiation_for(private_key, public_key, index, ephemeral, static_suffix, timestamp_suffix, timestamp_bytes(secs as nat))]
        ephemeral.len() == 32 && static_suffix.len() == 8 && timestamp_suffix.len() == 8
            && msg.len() == 168
            && chacha20poly1305_seal(private_key, suffix_nonce(static_suffix), public_key).len() == 48
            && chacha20poly1305_seal(private_key, suffix_nonce(timestamp_suffix), timestamp_bytes(secs as nat)).len() == 28
            && msg == initiation_for(
            private_key,
            public_key,
            index,
            ephemeral,
            static_suffix,
            timestamp_suffix,
            timestamp_bytes(secs as nat),
        )
}

/// The sender index read from a handshake initiation: the four bytes from
/// offset 3, most significant first.
pub open spec fn initiation_sender(buf: Seq<u8>) -> nat {
    be32_at(buf, 3)
}

/// The response to a handshake initiation: sender index `index`, receiver
/// index the initiation's sender, zero ephemeral value, empty payload, zero
/// MACs.
pub open spec fn response_for(index: u32, buf: Seq<u8>) -> Seq<u8> {
    response_wire(index, initiation_sender(buf) as u32, zeros(32), Seq::empty(), zeros(16), zeros(16))
}

/// The nonce of a transport message: four zero bytes, then its counter
/// (bytes 4 to 11, little-endian) as eight bytes, least significant first.
pub open spec fn transport_nonce(buf: Seq<u8>) -> Seq<u8> {
    suffix_nonce(le64_bytes(le64_at(buf, 4)))
}

/// Whether handling `buf` would read past its end: a handshake initiation of
/// 4 to 6 bytes.
pub open spec fn packet_overruns(buf: Seq<u8>) -> bool {
    buf.len() >= 4 && buf.len() < 7 && buf[0] == 1
}

/// The transport message sent on a session: the remote index, the counter
/// (most significant first), four zero bytes, then the ciphertext.
pub open spec fn transport_wire(remote: u32, counter: u64, ciphertext: Seq<u8>) -> Seq<u8> {
    be32_bytes(remote as nat) + be64_bytes(counter as nat) + zeros(4) + ciphertext
}

proof fn lemma_first_peer_unique(peers: Seq<PeerView>, key: Seq<u8>, i: int, j: int)
    requires
        is_first_peer(peers, key, i),
        is_first_peer(peers, key, j),
    ensures
        i == j,
{
    if i < j {
        assert(peers[i].public_key != key);
    } else if j < i {
        assert(peers[j].public_key != key);
    }
}

fn find_peer(peers: &Vec<WireGuardPeer>, key: &[u8; 32]) -> (r: Option<usize>)
    ensures
        match r {
            Some(i) => is_first_peer(peer_views(peers@), key@, i as int),
            None => !has_peer(peer_views(peers@), key@),
        },
{
    let mut i: usize = 0;
    while i < peers.len()
        invariant
            i <= peers@.len(),
            forall|k: int| 0 <= k < i ==> #[trigger] peer_views(peers@)[k].public_key != key@,
        decreases peers@.len() - i,
    {
        if same_key(&peers[i].public_key, key) {
            return Some(i);
        }
        i = i + 1;
    }
    None
}

fn peer_at(peers: &Vec<WireGuardPeer>, addr: SocketAddress) -> (r: bool)
    ensures
        r == has_peer_at(peer_views(peers@), addr),
{
    let mut i: usize = 0;
    while i < peers.len()
        invariant
            i <= peers@.len(),
            forall|k: int| 0 <= k < i ==> #[trigger] peer_views(peers@)[k].endpoint != Some(addr),
        decreases peers@.len() - i,
    {
        let hit = match peers[i].endpoint {
            Some(e) => e == addr,
            None => false,
        };
        if hit {
            assert(peer_views(peers@)[i as int].endpoint == Some(addr));
            return true;
        }
        i = i + 1;
    }
    false
}

fn find_session_remote(sessions: &Vec<Session>, idx: u32) -> (r: Option<usize>)
    ensures
        match r {
            Some(i) => is_first_session_remote(sessions@, idx, i as int),
            None => forall|i: int| !is_first_session_remote(sessions@, idx, i),
        },
{
    let mut i: usize = 0;
    while i < sessions.len()
        invariant
            i <= sessions@.len(),
            forall|k: int| 0 <= k < i ==> #[trigger] sessions@[k].remote_index != idx,
        decreases sessions@.len() - i,
    {
        if sessions[i].remote_index == idx {
            return Some(i);
        }
        i = i + 1;
    }
    proof {
        assert forall|i: int| !is_first_session_remote(sessions@, idx, i) by {
            if 0 <= i < sessions@.len() {
                assert(sessions@[i].remote_index != idx);
            }
        }
    }
    None
}

fn find_session_peer(sessions: &Vec<Session>, idx: u32) -> (r: Option<usize>)
    ensures
        match r {
            Some(i) => is_first_session_peer(sessions@, idx, i as int),
            None => forall|i: int| !is_first_session_peer(sessions@, idx, i),
        },
{
    let mut i: usize = 0;
    while i < sessions.len()
        invariant
            i <= sessions@.len(),
            forall|k: int| 0 <= k < i ==> #[trigger] sessions@[k].peer_index != idx,
        decreases sessions@.len() - i,
    {
        if sessions[i].peer_index == idx {
            return Some(i);
        }
        i = i + 1;
    }
    proof {
        assert forall|i: int| !is_first_session_peer(sessions@, idx, i) by {
            if 0 <= i < sessions@.len() {
                assert(sessions@[i].peer_index != idx);
            }
        }
    }
    None
}

proof fn lemma_first_session_remote_unique(s: Seq<Session>, idx: u32, i: int, j: int)
    requires
        is_first_session_remote(s, idx, i),
        is_first_session_remote(s, idx, j),
    ensures
        i == j,
{
    if i < j {
        assert(s[i].remote_index != idx);
    } else if j < i {
        assert(s[j].remote_index != idx);
    }
}

proof fn lemma_first_session_peer_unique(s: Seq<Session>, idx: u32, i: int, j: int)
    requires
        is_first_session_peer(s, idx, i),
        is_first_session_peer(s, idx, j),
    ensures
        i == j,
{
    if i < j {
        assert(s[i].peer_index != idx);
    } else if j < i {
        assert(s[j].peer_index != idx);
    }
}

impl WireGuardTunnel {
    /// The endpoint of the peer with the given key: `Err` with a tunnel error
    /// "Peer not found" when there is no such peer.
    fn lookup_endpoint(&self, key: &[u8; 32]) -> (r: Result<Option<SocketAddress>, Error>)
        ensures
            match peer_endpoint(self.peers(), key@) {
                Some(ep) => r matches Ok(e) && e == ep,
                None => r matches Err(Error::Tunnel(m)) && m@ == "Peer not found"@,
            },
    {
        match find_peer(&self.peers, key) {
            Some(i) => {
                proof {
                    let views = peer_views(self.peers@);
                    assert(views[i as int].public_key == key@);
                    assert(has_peer(views, key@));
                    let c = choose|j: int| is_first_peer(views, key@, j);
                    lemma_first_peer_unique(views, key@, c, i as int);
                }
                Ok(self.peers[i].endpoint)
            },
            None => Err(Error::Tunnel(String::from_str("Peer not found"))),
        }
    }

    /// Builds the handshake initiation for the peer with the given key from
    /// the random values given: it fails with a tunnel error "Peer not found"
    /// when there is no such peer; otherwise a sender index is handed out and
    /// the initiation (see [`initiation_for`]) is returned with the peer's
    /// endpoint, or nothing when the peer has no endpoint.
    pub fn build_handshake_initiation(
        &mut self,
        peer_public_key: &[u8; 32],
        ephemeral: [u8; 32],
        static_suffix: [u8; 8],
        timestamp_suffix: [u8; 8],
        timestamp: [u8; 12],
    ) -> (r: Result<Option<(Vec<u8>, SocketAddress)>, Error>)
        ensures
            match peer_endpoint(old(self).peers(), peer_public_key@) {
                None => r matches Err(Error::Tunnel(m)) && m@ == "Peer not found"@ && *final(self)
                    == *old(self),
                Some(ep) => {
                    &&& final(self).next_index() == (if old(self).next_index() == u32::MAX {
                        0
                    } else {
                        (old(self).next_index() + 1) as u32
                    })
                    &&& final(self).same_but_index(old(self))
                    &&& match ep {
                        Some(e) => r matches Ok(Some((msg, dest))) && dest == e && msg@
                            == initiation_for(
                            old(self).private_key(),
                            old(self).public_key(),
                            old(self).next_index(),
                            ephemeral@,
                            static_suffix@,
                            timestamp_suffix@,
                            timestamp@,
                        ) && msg@.len() == 168 && chacha20poly1305_seal(
                            old(self).private_key(),
                            suffix_nonce(static_suffix@),
                            old(self).public_key(),
                        ).len() == 48 && chacha20poly1305_seal(
                            old(self).private_key(),
                            suffix_nonce(timestamp_suffix@),
                            timestamp@,
                        ).len() == 28,
                        None => r matches Ok(None),
                    }
                },
            },
    {
        let endpoint = match self.lookup_endpoint(peer_public_key) {
            Ok(e) => e,
            Err(e) => {
                return Err(e);
            },
        };
        let sender_index = self.allocate_sender_index();
        let encrypted_static = match encrypt_with_nonce_suffix(
            &self.local_private_key,
            &static_suffix,
            &self.local_public_key,
        ) {
            Ok(c) => c,
            Err(e) => {
                return Err(e);
            },
        };
        let encrypted_timestamp = match encrypt_with_nonce_suffix(
            &self.local_private_key,
            &timestamp_suffix,
            &timestamp,
        ) {
            Ok(c) => c,
            Err(e) => {
                return Err(e);
            },
        };
        let initiation = HandshakeInitiation {
            sender_index,
            ephemeral,
            encrypted_static,
            encrypted_timestamp,
            mac1: [0u8; 16],
            mac2: [0u8; 16],
        };
        proof {
            assert(initiation.mac1@ =~= zeros(16));
            assert(initiation.mac2@ =~= zeros(16));
        }
        let msg = encode_handshake_initiation(&initiation);
        match endpoint {
            Some(ep) => Ok(Some((msg, ep))),
            None => Ok(None),
        }
    }

    /// Whether two states differ at most in the next sender index.
    pub open spec fn same_but_index(&self, other: &Self) -> bool {
        &&& self.private_key() == other.private_key()
        &&& self.public_key() == other.public_key()
        &&& self.peers() == other.peers()
        &&& forall|idx: u32| #[trigger] self.receiving_key_for(idx) == other.receiving_key_for(idx)
        &&& forall|idx: u32| #[trigger] self.sending_session_for(idx) == other.sending_session_for(idx)
    }
}


impl WireGuardTunnel {
    /// The public key encrypted under the private key, with a fresh random
    /// nonce suffix in front.
    pub fn encrypt_identity(&self, _peer_public: &[u8; 32]) -> (r: Result<Vec<u8>, Error>)
        ensures
            r matches Ok(c) && exists|sfx: Seq<u8>|
                sfx.len() == 8 && c@ == suffixed_seal(self.private_key(), sfx, self.public_key()),
    {
        let sfx = random_suffix();
        encrypt_with_nonce_suffix(&self.local_private_key, &sfx, &self.local_public_key)
    }

    /// A timestamp encrypted under the private key, with a fresh random nonce
    /// suffix in front.
    pub fn encrypt_timestamp(&self, timestamp: &[u8]) -> (r: Result<Vec<u8>, Error>)
        ensures
            aead_length_ok(timestamp@.len()) ==> (r matches Ok(c) && exists|sfx: Seq<u8>|
                sfx.len() == 8 && c@ == suffixed_seal(self.private_key(), sfx, timestamp@)),
            !aead_length_ok(timestamp@.len()) ==> (r matches Err(Error::Tunnel(m)) && m@
                == "Encryption failed"@),
    {
        let sfx = random_suffix();
        encrypt_with_nonce_suffix(&self.local_private_key, &sfx, timestamp)
    }

    /// Encrypts a packet under `key` with a fresh random nonce (four zero
    /// bytes, then eight random ones); the nonce is not sent along.
    pub fn encrypt_data(&self, key: &[u8; 32], plaintext: &[u8]) -> (r: Result<Vec<u8>, Error>)
        ensures
            aead_length_ok(plaintext@.len()) ==> (r matches Ok(c) && c@.len() == plaintext@.len()
                + 16 && exists|sfx: Seq<u8>|
                sfx.len() == 8 && c@ == chacha20poly1305_seal(key@, suffix_nonce(sfx), plaintext@)),
            !aead_length_ok(plaintext@.len()) ==> (r matches Err(Error::Tunnel(m)) && m@
                == "Encryption failed"@),
    {
        let sfx = random_suffix();
        let nonce = nonce_from_suffix(&sfx);
        match aead_encrypt(key, &nonce, plaintext) {
            Ok(c) => Ok(c),
            Err(_) => Err(Error::Tunnel(String::from_str("Encryption failed"))),
        }
    }

    /// Starts a handshake with the peer with the given key, with a fresh
    /// ephemeral value, fresh nonces and the current time: it fails with a
    /// tunnel error "Peer not found" when there is no such peer, and with an
    /// internal error when the system clock is set before the Unix epoch;
    /// otherwise it returns the initiation to send and where, or nothing when
    /// the peer has no endpoint.
    pub fn initiate_handshake(&mut self, peer_public_key: &[u8; 32]) -> (r: Result<Option<(Vec<u8>, SocketAddress)>, Error>)
        ensures
            peer_endpoint(old(self).peers(), peer_public_key@) is None ==> (r matches Err(
                Error::Tunnel(m),
            ) && m@ == "Peer not found"@ && *final(self) == *old(self)),
            r is Err ==> *final(self) == *old(self),
            peer_endpoint(old(self).peers(), peer_public_key@) is Some && r is Err ==> (r matches Err(
                Error::Internal(m),
            ) && m@ == "System clock is before the Unix epoch"@),
            r is Ok ==> final(self).next_index() == (if old(self).next_index() == u32::MAX {
                0
            } else {
                (old(self).next_index() + 1) as u32
            }) && final(self).same_but_index(old(self)),
            r matches Ok(None) ==> peer_endpoint(old(self).peers(), peer_public_key@)
                == Some(None::<SocketAddress>),
            r matches Ok(Some((msg, dest))) ==> peer_endpoint(old(self).peers(), peer_public_key@)
                == Some(Some(dest)) && fresh_initiation(
                old(self).private_key(),
                old(self).public_key(),
                old(self).next_index(),
                msg@,
            ),
    {
        match self.lookup_endpoint(peer_public_key) {
            Ok(_) => {},
            Err(e) => {
                return Err(e);
            },
        }
        let ephemeral = generate_key();
        let static_suffix = random_suffix();
        let timestamp = match create_timestamp() {
            Some(t) => t,
            None => {
                return Err(
                    Error::Internal(String::from_str("System clock is before the Unix epoch")),
                );
            },
        };
        let timestamp_suffix = random_suffix();
        let ghost before = *self;
        let r = self.build_handshake_initiation(
            peer_public_key,
            ephemeral,
            static_suffix,
            timestamp_suffix,
            timestamp,
        );
        proof {
            if r is Ok && r->Ok_0 is Some {
                let msg = r->Ok_0->Some_0.0;
                let secs = choose|secs: u64| timestamp@ == timestamp_bytes(secs as nat);
                assert(msg@ == initiation_for(
                    before.private_key(),
                    before.public_key(),
                    before.next_index(),
                    ephemeral@,
                    static_suffix@,
                    timestamp_suffix@,
                    timestamp_bytes(secs as nat),
                ));
            }
        }
        r
    }

    /// Decrypts a transport payload on the session whose remote index is
    /// `receiver_index`, with the nonce of four zero bytes and the counter's
    /// bytes, least significant first. It fails with a tunnel error "No
    /// session found for receiver index" when there is no such session, and
    /// "Decryption failed" when the payload does not open.
    pub fn decrypt_packet(&self, receiver_index: u32, counter: u64, encrypted: &[u8]) -> (r: Result<Vec<u8>, Error>)
        ensures
            match self.receiving_key_for(receiver_index) {
                None => r matches Err(Error::Tunnel(m)) && m@ == "No session found for receiver index"@,
                Some(k) => {
                    &&& r matches Ok(p) ==> chacha20poly1305_seal(
                        k,
                        suffix_nonce(le64_bytes(counter as nat)),
                        p@,
                    ) == encrypted@
                    &&& r is Err ==> (r matches Err(Error::Tunnel(m)) && m@ == "Decryption failed"@)
                    &&& forall|p: Seq<u8>|
                        #[trigger] chacha20poly1305_seal(
                            k,
                            suffix_nonce(le64_bytes(counter as nat)),
                            p,
                        ) == encrypted@ && aead_length_ok(p.len()) ==> (r matches Ok(q) && q@ == p)
                },
            },
    {
        match find_session_remote(&self.sessions, receiver_index) {
            Some(i) => {
                proof {
                    let c = choose|j: int| is_first_session_remote(self.sessions@, receiver_index, j);
                    lemma_first_session_remote_unique(self.sessions@, receiver_index, c, i as int);
                }
                let sfx = le64_array(counter);
                let nonce = nonce_from_suffix(&sfx);
                match aead_decrypt(&self.sessions[i].receiving_key.key, &nonce, encrypted) {
                    Ok(p) => Ok(p),
                    Err(_) => Err(Error::Tunnel(String::from_str("Decryption failed"))),
                }
            },
            None => Err(Error::Tunnel(String::from_str("No session found for receiver index"))),
        }
    }
}


impl WireGuardTunnel {
    /// Handles a handshake initiation from `addr`: it fails with a tunnel
    /// error "Invalid handshake initiation" when it is shorter than 4 bytes;
    /// when some peer is reached at `addr`, a sender index is handed out and
    /// the response (see [`response_for`]) is to be sent back to `addr`;
    /// otherwise nothing is done.
    fn handle_handshake_initiation(&mut self, buf: &[u8], addr: SocketAddress) -> (r: Result<PacketAction, Error>)
        requires
            !packet_overruns(buf@),
            buf@.len() > 0 && buf@[0] == 1,
        ensures
            buf@.len() < 4 ==> (r matches Err(Error::Tunnel(m)) && m@ == "Invalid handshake initiation"@
                && *final(self) == *old(self)),
            buf@.len() >= 4 && has_peer_at(old(self).peers(), addr) ==> (r matches Ok(
                PacketAction::Reply(msg, dest),
            ) && dest == addr && msg@ == response_for(old(self).next_index(), buf@) && final(self).next_index() == (if old(self).next_index() == u32::MAX {
                0
            } else {
                (old(self).next_index() + 1) as u32
            }) && final(self).same_but_index(old(self))),
            buf@.len() >= 4 && !has_peer_at(old(self).peers(), addr) ==> (r matches Ok(
                PacketAction::Nothing,
            ) && *final(self) == *old(self)),
    {
        if buf.len() < 4 {
            return Err(Error::Tunnel(String::from_str("Invalid handshake initiation")));
        }
        let sender_index = read_be32(buf, 3);
        let should_respond = peer_at(&self.peers, addr);
        if should_respond {
            let response = HandshakeResponse {
                sender_index: self.allocate_sender_index(),
                receiver_index: sender_index,
                ephemeral: [0u8; 32],
                encrypted_nothing: Vec::new(),
                mac1: [0u8; 16],
                mac2: [0u8; 16],
            };
            proof {
                assert(response.ephemeral@ =~= zeros(32));
                assert(response.mac1@ =~= zeros(16));
                assert(response.mac2@ =~= zeros(16));
                assert(response.encrypted_nothing@ =~= Seq::<u8>::empty());
            }
            let msg = encode_handshake_response(&response);
            Ok(PacketAction::Reply(msg, addr))
        } else {
            Ok(PacketAction::Nothing)
        }
    }

    /// Handles a transport message: it fails with a tunnel error "Invalid
    /// transport message" when it is shorter than 32 bytes; otherwise the
    /// payload from byte 16 on is decrypted (see [`decrypt_packet`]) with the
    /// receiver index of bytes 0 to 3 (most significant first) and the counter
    /// of bytes 4 to 11 (least significant first).
    fn handle_transport_data(&self, buf: &[u8]) -> (r: Result<PacketAction, Error>)
        ensures
            buf@.len() < 32 ==> (r matches Err(Error::Tunnel(m)) && m@ == "Invalid transport message"@),
            buf@.len() >= 32 ==> transport_outcome(self, buf@, r),
    {
        if buf.len() < 32 {
            return Err(Error::Tunnel(String::from_str("Invalid transport message")));
        }
        let receiver_index = read_be32(buf, 0);
        let counter = read_le64(buf, 4);
        let mut encrypted: Vec<u8> = Vec::new();
        let mut i: usize = 16;
        while i < buf.len()
            invariant
                16 <= i <= buf@.len(),
                encrypted@ == buf@.subrange(16, i as int),
            decreases buf@.len() - i,
        {
            encrypted.push(buf[i]);
            i = i + 1;
            proof {
                assert(encrypted@ =~= buf@.subrange(16, i as int));
            }
        }
        match self.decrypt_packet(receiver_index, counter, encrypted.as_slice()) {
            Ok(p) => Ok(PacketAction::Deliver(p)),
            Err(e) => Err(e),
        }
    }

    /// Handles a datagram from `addr`. An empty datagram, a handshake
    /// response (type 2) and an unknown type are ignored; a handshake
    /// initiation (type 1) and transport data (type 4) are handled as
    /// [`handle_handshake_initiation`] and [`handle_transport_data`] say.
    pub fn handle_packet(&mut self, buf: &[u8], addr: SocketAddress) -> (r: Result<PacketAction, Error>)
        requires
            !packet_overruns(buf@),
        ensures
            buf@.len() == 0 ==> (r matches Ok(PacketAction::Nothing) && *final(self) == *old(self)),
            buf@.len() > 0 && buf@[0] == 1 && buf@.len() < 4 ==> (r matches Err(Error::Tunnel(m))
                && m@ == "Invalid handshake initiation"@ && *final(self) == *old(self)),
            buf@.len() > 0 && buf@[0] == 1 && buf@.len() >= 4 && has_peer_at(old(self).peers(), addr)
                ==> (r matches Ok(PacketAction::Reply(msg, dest)) && dest == addr && msg@
                == response_for(old(self).next_index(), buf@) && final(self).next_index() == (
            if old(self).next_index() == u32::MAX {
                0
            } else {
                (old(self).next_index() + 1) as u32
            }) && final(self).same_but_index(old(self))),
            buf@.len() > 0 && buf@[0] == 1 && buf@.len() >= 4 && !has_peer_at(
                old(self).peers(), addr) ==> (r matches Ok(PacketAction::Nothing) && *final(self) == *old(self)),
            buf@.len() > 0 && buf@[0] != 1 && buf@[0] != 4 ==> (r matches Ok(PacketAction::Nothing)
                && *final(self) == *old(self)),
            buf@.len() > 0 && buf@[0] == 4 ==> *final(self) == *old(self),
            buf@.len() > 0 && buf@[0] == 4 && buf@.len() < 32 ==> (r matches Err(Error::Tunnel(m))
                && m@ == "Invalid transport message"@),
            buf@.len() > 0 && buf@[0] == 4 && buf@.len() >= 32 ==> transport_outcome(
                old(self),
                buf@,
                r,
            ),
    {
        if buf.len() == 0 {
            return Ok(PacketAction::Nothing);
        }
        let msg_type = buf[0];
        if msg_type == 1 {
            self.handle_handshake_initiation(buf, addr)
        } else if msg_type == 2 {
            Ok(PacketAction::Nothing)
        } else if msg_type == 4 {
            self.handle_transport_data(buf)
        } else {
            Ok(PacketAction::Nothing)
        }
    }
}

/// What handling transport data of at least 32 bytes gives: with the
/// receiver index of bytes 0 to 3 and the nonce of [`transport_nonce`], no
/// session is an error "No session found for receiver index"; otherwise a
/// delivered packet seals back to bytes 16 on, and a payload sealed from an
/// acceptable packet is delivered as it; any failure is "Decryption failed".
pub open spec fn transport_outcome(t: &WireGuardTunnel, buf: Seq<u8>, r: Result<PacketAction, Error>) -> bool {
    match t.receiving_key_for(be32_at(buf, 0) as u32) {
        None => r matches Err(Error::Tunnel(m)) && m@ == "No session found for receiver index"@,
        Some(k) => {
            &&& (r is Ok ==> (r matches Ok(PacketAction::Deliver(p)) && chacha20poly1305_seal(
                k,
                transport_nonce(buf),
                p@,
            ) == buf.subrange(16, buf.len() as int)))
            &&& (r is Err ==> (r matches Err(Error::Tunnel(m)) && m@ == "Decryption failed"@))
            &&& forall|p: Seq<u8>|
                #[trigger] chacha20poly1305_seal(k, transport_nonce(buf), p) == buf.subrange(
                    16,
                    buf.len() as int,
                ) && aead_length_ok(p.len()) ==> (r matches Ok(PacketAction::Deliver(q)) && q@ == p)
        },
    }
}


impl WireGuardTunnel {
    /// Sends a packet to the peer with the given key: it fails with a tunnel
    /// error "Peer not found" when there is no such peer and "Peer has no
    /// endpoint" when the peer has no endpoint. When a session belongs to the
    /// peer (its peer index is the big-endian value of the key's first four
    /// bytes), the transport message (see [`transport_wire`]) with the packet
    /// encrypted under the session's sending key and a fresh nonce is to be
    /// sent to the endpoint; otherwise a handshake is started instead
    /// (see [`initiate_handshake`]).
    pub fn send_packet(&mut self, peer_public_key: &[u8; 32], packet: &[u8]) -> (r: Result<Option<(Vec<u8>, SocketAddress)>, Error>)
        ensures
            peer_endpoint(old(self).peers(), peer_public_key@) is None ==> (r matches Err(
                Error::Tunnel(m),
            ) && m@ == "Peer not found"@),
            peer_endpoint(old(self).peers(), peer_public_key@) == Some(None::<SocketAddress>) ==> (
            r matches Err(Error::Tunnel(m)) && m@ == "Peer has no endpoint"@),
            r is Err ==> *final(self) == *old(self),
            peer_endpoint(old(self).peers(), peer_public_key@) matches Some(Some(ep)) ==> match old(
                self,
            ).sending_session_for(key_index(peer_public_key@) as u32) {
                Some((remote, counter, key)) => *final(self) == *old(self) && (aead_length_ok(
                    packet@.len(),
                ) ==> (r matches Ok(Some((msg, dest))) && dest == ep && msg@.len() == packet@.len()
                    + 32 && exists|sfx: Seq<u8>|
                    sfx.len() == 8 && msg@ == transport_wire(
                        remote,
                        counter,
                        chacha20poly1305_seal(key, suffix_nonce(sfx), packet@),
                    ))) && (!aead_length_ok(packet@.len()) ==> (r matches Err(Error::Tunnel(m))
                    && m@ == "Encryption failed"@)),
                None => (r is Ok ==> final(self).same_but_index(old(self))) && (r matches Ok(
                    Some((msg, dest)),
                ) ==> dest == ep && fresh_initiation(
                    old(self).private_key(),
                    old(self).public_key(),
                    old(self).next_index(),
                    msg@,
                )) && !(r matches Ok(None)) && (r is Err ==> (r matches Err(Error::Internal(m))
                    && m@ == "System clock is before the Unix epoch"@)),
            },
    {
        let endpoint = match self.lookup_endpoint(peer_public_key) {
            Ok(e) => e,
            Err(e) => {
                return Err(e);
            },
        };
        let endpoint = match endpoint {
            Some(ep) => ep,
            None => {
                return Err(Error::Tunnel(String::from_str("Peer has no endpoint")));
            },
        };
        let peer_index = read_be32(peer_public_key, 0);
        match find_session_peer(&self.sessions, peer_index) {
            Some(i) => {
                proof {
                    let c = choose|j: int| is_first_session_peer(self.sessions@, peer_index, j);
                    lemma_first_session_peer_unique(self.sessions@, peer_index, c, i as int);
                }
                let remote = self.sessions[i].remote_index;
                let counter = self.sessions[i].sending_key.counter;
                let key = self.sessions[i].sending_key.key;
                let encrypted_packet = match self.encrypt_data(&key, packet) {
                    Ok(c) => c,
                    Err(e) => {
                        return Err(e);
                    },
                };
                let mut buf: Vec<u8> = Vec::new();
                push_be32(&mut buf, remote);
                push_be64(&mut buf, counter);
                push_be32(&mut buf, 0);
                push_slice(&mut buf, encrypted_packet.as_slice());
                proof {
                    assert(be32_bytes(0) =~= zeros(4));
                }
                Ok(Some((buf, endpoint)))
            },
            None => self.initiate_handshake(peer_public_key),
        }
    }
}


/// A derived public key has its first byte's low three bits clear and its
/// last byte's top bit clear and next bit set.
pub proof fn lemma_clamped_digest_bits(private_key: Seq<u8>)
    requires
        sha256(private_key).len() == 32,
    ensures
        clamped_digest(private_key).len() == 32,
        clamped_digest(private_key)[0] & 7u8 == 0,
        clamped_digest(private_key)[31] & 128u8 == 0,
        clamped_digest(private_key)[31] & 64u8 == 64,
{
    let h = sha256(private_key);
    let a = h[0];
    let b = h[31];
    assert((a & 248u8) & 7u8 == 0) by (bit_vector);
    assert(((b & 127u8) | 64u8) & 128u8 == 0) by (bit_vector);
    assert(((b & 127u8) | 64u8) & 64u8 == 64) by (bit_vector);
}

/// After removing the peers with a key, no peer has it, and every other
/// peer is still there.
pub proof fn lemma_without_key(peers: Seq<PeerView>, key: Seq<u8>)
    ensures
        forall|i: int|
            0 <= i < without_key(peers, key).len() ==> #[trigger] without_key(peers, key)[i].public_key
                != key,
        forall|p: PeerView| #[trigger] peers.contains(p) && p.public_key != key ==> without_key(
            peers,
            key,
        ).contains(p),
{
    broadcast use vstd::seq_lib::group_filter_ensures;
    assert forall|p: PeerView| #[trigger] peers.contains(p) && p.public_key != key implies without_key(
        peers,
        key,
    ).contains(p) by {
        peers.lemma_filter_contains_rev(|q: PeerView| q.public_key != key, p);
    }
}

} // verus!
