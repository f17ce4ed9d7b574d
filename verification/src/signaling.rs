//! Signaling: the messages peers exchange through a server, what the server
//! answers to each, and the events a client draws from them. Reading and
//! writing the messages on connections is left to the caller.

use vstd::prelude::*;
use crate::errors::Error;
use crate::ice::{IceAgent, IceCandidate, IceCredentials};
use crate::net::SocketAddress;

verus! {

/// A signaling message.
#[derive(Debug)]
pub enum SignalingMessage {
    /// A client registers under an id with its public key.
    Register {
        /// The client's id.
        client_id: String,
        /// The client's public key.
        public_key: [u8; 32],
    },
    /// The answer to a registration.
    RegisterAck {
        /// Whether the registration succeeded.
        success: bool,
    },
    /// A session offer.
    Offer {
        /// Sender.
        from: String,
        /// Recipient.
        to: String,
        /// Session description.
        sdp: String,
    },
    /// A session answer.
    Answer {
        /// Sender.
        from: String,
        /// Recipient.
        to: String,
        /// Session description.
        sdp: String,
    },
    /// An ICE candidate.
    IceCandidate {
        /// Sender.
        from: String,
        /// Recipient.
        to: String,
        /// The candidate.
        candidate: IceCandidate,
    },
    /// The registered peers.
    PeerList {
        /// The peers.
        peers: Vec<PeerInfo>,
    },
    /// A liveness probe.
    Ping,
    /// The answer to a probe.
    Pong,
    /// An error report.
    Error {
        /// What went wrong.
        message: String,
    },
}

/// A registered peer.
#[derive(Debug)]
pub struct PeerInfo {
    /// The peer's id.
    pub id: String,
    /// The peer's public key.
    pub public_key: [u8; 32],
    /// The peer's endpoint, if known.
    pub endpoint: Option<String>,
}

impl Clone for PeerInfo {
    fn clone(&self) -> (r: Self)
        ensures
            r == *self,
    {
        let endpoint = match &self.endpoint {
            Some(e) => Some(e.clone()),
            None => None,
        };
        PeerInfo { id: self.id.clone(), public_key: self.public_key, endpoint }
    }
}

fn clone_peers(peers: &Vec<PeerInfo>) -> (v: Vec<PeerInfo>)
    ensures
        v@ == peers@,
{
    let mut v: Vec<PeerInfo> = Vec::new();
    let mut i: usize = 0;
    while i < peers.len()
        invariant
            i <= peers@.len(),
            v@ == peers@.subrange(0, i as int),
        decreases peers@.len() - i,
    {
        v.push(peers[i].clone());
        i = i + 1;
        proof {
            assert(v@ =~= peers@.subrange(0, i as int));
        }
    }
    proof {
        assert(peers@.subrange(0, i as int) =~= peers@);
    }
    v
}

/// The peers without those registered under `id`, in order.
pub open spec fn without_id(peers: Seq<PeerInfo>, id: Seq<char>) -> Seq<PeerInfo> {
    peers.filter(|p: PeerInfo| p.id@ != id)
}

/// The state of a signaling server: its address, the registered peers and the
/// offers and answers received, as (from, to, description).
pub struct SignalingServer {
    address: SocketAddress,
    peers: Vec<PeerInfo>,
    pending_offers: Vec<(String, String, String)>,
}

impl SignalingServer {
    /// The registered peers.
    pub closed spec fn registered(&self) -> Seq<PeerInfo> {
        self.peers@
    }

    /// The offers and answers received.
    pub closed spec fn pending(&self) -> Seq<(String, String, String)> {
        self.pending_offers@
    }

    /// The address served.
    pub closed spec fn server_address(&self) -> SocketAddress {
        self.address
    }

    /// A server for `address` with no peers and nothing pending.
    pub fn new(address: SocketAddress) -> (s: Self)
        ensures
            s.server_address() == address,
            s.registered() == Seq::<PeerInfo>::empty(),
            s.pending() == Seq::<(String, String, String)>::empty(),
    {
        SignalingServer { address, peers: Vec::new(), pending_offers: Vec::new() }
    }

    /// The address served.
    pub fn address(&self) -> (a: SocketAddress)
        ensures
            a == self.server_address(),
    {
        self.address
    }

    /// Handles a message from a client and gives the messages to write back
    /// to it, in order. A registration records the client's id and adds the
    /// peer (no endpoint), and is answered with a successful acknowledgement
    /// and the list of all registered peers; an offer or an answer is kept as
    /// pending; an ICE candidate is echoed back; a ping is answered with a
    /// pong; anything else is answered with nothing.
    pub fn handle_message(&mut self, client_id: &mut Option<String>, msg: SignalingMessage) -> (out: Vec<SignalingMessage>)
        ensures
            final(self).server_address() == old(self).server_address(),
            match msg {
                SignalingMessage::Register { client_id: id, public_key: pk } => {
                    let p = PeerInfo { id, public_key: pk, endpoint: None };
                    &&& *final(client_id) == Some(id)
                    &&& final(self).registered() == old(self).registered().push(p)
                    &&& final(self).pending() == old(self).pending()
                    &&& out@.len() == 2
                    &&& out@[0] matches SignalingMessage::RegisterAck { success } && success
                    &&& out@[1] matches SignalingMessage::PeerList { peers } && peers@
                        == old(self).registered().push(p)
                },
                SignalingMessage::Offer { from, to, sdp } => {
                    &&& *final(client_id) == *old(client_id)
                    &&& final(self).registered() == old(self).registered()
                    &&& final(self).pending() == old(self).pending().push((from, to, sdp))
                    &&& out@.len() == 0
                },
                SignalingMessage::Answer { from, to, sdp } => {
                    &&& *final(client_id) == *old(client_id)
                    &&& final(self).registered() == old(self).registered()
                    &&& final(self).pending() == old(self).pending().push((from, to, sdp))
                    &&& out@.len() == 0
                },
                SignalingMessage::IceCandidate { from, to, candidate } => {
                    &&& *final(client_id) == *old(client_id)
                    &&& final(self).registered() == old(self).registered()
                    &&& final(self).pending() == old(self).pending()
                    &&& out@ == seq![SignalingMessage::IceCandidate { from, to, candidate }]
                },
                SignalingMessage::Ping => {
                    &&& *final(client_id) == *old(client_id)
                    &&& final(self).registered() == old(self).registered()
                    &&& final(self).pending() == old(self).pending()
                    &&& out@.len() == 1 && out@[0] is Pong
                },
                _ => {
                    &&& *final(client_id) == *old(client_id)
                    &&& final(self).registered() == old(self).registered()
                    &&& final(self).pending() == old(self).pending()
                    &&& out@.len() == 0
                },
            },
    {
        let mut out: Vec<SignalingMessage> = Vec::new();
        match msg {
            SignalingMessage::Register { client_id: id, public_key: pk } => {
                *client_id = Some(id.clone());
                let peer_info = PeerInfo { id, public_key: pk, endpoint: None };
                self.peers.push(peer_info);
                out.push(SignalingMessage::RegisterAck { success: true });
                out.push(SignalingMessage::PeerList { peers: clone_peers(&self.peers) });
            },
            SignalingMessage::Offer { from, to, sdp } => {
                self.pending_offers.push((from, to, sdp));
            },
            SignalingMessage::Answer { from, to, sdp } => {
                self.pending_offers.push((from, to, sdp));
            },
            SignalingMessage::IceCandidate { from, to, candidate } => {
                out.push(SignalingMessage::IceCandidate { from, to, candidate });
            },
            SignalingMessage::Ping => {
                out.push(SignalingMessage::Pong);
            },
            _ => {},
        }
        out
    }

    /// Handles the end of a client's connection: when it had registered, every
    /// peer registered under its id is removed.
    pub fn handle_disconnect(&mut self, client_id: Option<String>)
        ensures
            final(self).server_address() == old(self).server_address(),
            final(self).pending() == old(self).pending(),
            match client_id {
                Some(id) => final(self).registered() == without_id(old(self).registered(), id@),
                None => final(self).registered() == old(self).registered(),
            },
    {
        if let Some(id) = client_id {
            let mut kept: Vec<PeerInfo> = Vec::new();
            let mut i: usize = 0;
            let ghost orig = self.peers@;
            while i < self.peers.len()
                invariant
                    i <= self.peers@.len(),
                    self.peers@ == orig,
                    kept@ == without_id(orig.subrange(0, i as int), id@),
                decreases self.peers@.len() - i,
            {
                let p = self.peers[i].clone();
                proof {
                    assert(orig.subrange(0, i + 1).drop_last() =~= orig.subrange(0, i as int));
                    reveal_with_fuel(Seq::filter, 1);
                }
                if p.id != id {
                    kept.push(p);
                }
                i = i + 1;
            }
            proof {
                assert(orig.subrange(0, i as int) =~= orig);
            }
            self.peers = kept;
        }
    }
}

/// After a client's connection ends, no peer is registered under its id, and
/// every peer registered under another id is still there, in order.
pub proof fn lemma_disconnect_removes(peers: Seq<PeerInfo>, id: Seq<char>)
    ensures
        forall|i: int| 0 <= i < without_id(peers, id).len() ==> #[trigger] without_id(peers, id)[i].id@ != id,
        forall|p: PeerInfo| #[trigger] peers.contains(p) && p.id@ != id ==> without_id(peers, id).contains(p),
{
    broadcast use vstd::seq_lib::group_filter_ensures;
    assert forall|p: PeerInfo| #[trigger] peers.contains(p) && p.id@ != id implies without_id(peers, id).contains(p) by {
        peers.lemma_filter_contains_rev(|q: PeerInfo| q.id@ != id, p);
    }
}

/// A client that registers and then disconnects leaves the registered peers
/// as they were, when none was registered under its id before.
pub proof fn lemma_register_then_disconnect(peers: Seq<PeerInfo>, p: PeerInfo)
    requires
        forall|i: int| 0 <= i < peers.len() ==> #[trigger] peers[i].id@ != p.id@,
    ensures
        without_id(peers.push(p), p.id@) == peers,
{
    let f = |q: PeerInfo| q.id@ != p.id@;
    peers.lemma_filter_push(p, f);
    lemma_filter_all(peers, f);
}

proof fn lemma_filter_all(s: Seq<PeerInfo>, f: spec_fn(PeerInfo) -> bool)
    requires
        forall|i: int| 0 <= i < s.len() ==> f(#[trigger] s[i]),
    ensures
        s.filter(f) == s,
    decreases s.len(),
{
    reveal_with_fuel(Seq::filter, 1);
    if s.len() > 0 {
        lemma_filter_all(s.drop_last(), f);
        assert(s.drop_last().push(s.last()) =~= s);
    }
}

/// An event a client draws from the messages it receives.
#[derive(Debug)]
pub enum SignalingEvent {
    /// A peer connected.
    PeerConnected(String),
    /// A peer disconnected.
    PeerDisconnected(String),
    /// An offer arrived.
    OfferReceived {
        /// Sender.
        from: String,
        /// Session description.
        sdp: String,
    },
    /// An answer arrived.
    AnswerReceived {
        /// Sender.
        from: String,
        /// Session description.
        sdp: String,
    },
    /// An ICE candidate arrived.
    IceCandidateReceived {
        /// Sender.
        from: String,
        /// The candidate.
        candidate: IceCandidate,
    },
    /// An error was reported.
    Error(String),
}

/// A fresh random identifier as text (`Uuid::new_v4().to_string()`), which
/// is 36 characters long.
#[verifier::external_body]
fn new_client_id() -> (s: String)
    ensures
        s@.len() == 36,
{
    uuid::Uuid::new_v4().to_string()
}

/// The state of a signaling client: the server's address, its own id and
/// public key, and whether it is connected.
pub struct SignalingClient {
    server_address: SocketAddress,
    client_id: String,
    public_key: [u8; 32],
    connected: bool,
}

impl SignalingClient {
    /// The client's id.
    pub closed spec fn id(&self) -> Seq<char> {
        self.client_id@
    }

    /// The client's public key.
    pub closed spec fn key(&self) -> Seq<u8> {
        self.public_key@
    }

    /// The server's address.
    pub closed spec fn server(&self) -> SocketAddress {
        self.server_address
    }

    /// Whether the client is connected.
    pub closed spec fn is_connected(&self) -> bool {
        self.connected
    }

    /// A client of the server at `server_address`, with a fresh random id,
    /// not connected.
    pub fn new(server_address: SocketAddress, public_key: [u8; 32]) -> (c: Self)
        ensures
            c.server() == server_address,
            c.key() == public_key@,
            c.id().len() == 36,
            !c.is_connected(),
    {
        SignalingClient { server_address, client_id: new_client_id(), public_key, connected: false }
    }

    /// The server's address.
    pub fn server_address(&self) -> (a: SocketAddress)
        ensures
            a == self.server(),
    {
        self.server_address
    }

    /// The client's id.
    pub fn client_id(&self) -> (s: &str)
        ensures
            s@ == self.id(),
    {
        self.client_id.as_str()
    }

    /// Records whether the client is connected.
    pub fn set_connected(&mut self, connected: bool)
        ensures
            final(self).is_connected() == connected,
            final(self).id() == old(self).id(),
            final(self).key() == old(self).key(),
            final(self).server() == old(self).server(),
    {
        self.connected = connected;
    }

    /// Whether the client is connected.
    pub fn connected(&self) -> (b: bool)
        ensures
            b == self.is_connected(),
    {
        self.connected
    }

    /// The registration message: the client's id and public key.
    pub fn register_message(&self) -> (m: SignalingMessage)
        ensures
            m matches SignalingMessage::Register { client_id, public_key } && client_id@
                == self.id() && public_key@ == self.key(),
    {
        SignalingMessage::Register { client_id: self.client_id.clone(), public_key: self.public_key }
    }

    /// Checks the server's answer to a registration: a successful
    /// acknowledgement is accepted; a failed one is a protocol error
    /// "Registration failed"; any other message is a protocol error
    /// "Unexpected response".
    pub fn check_register_response(response: &SignalingMessage) -> (r: Result<(), Error>)
        ensures
            match response {
                SignalingMessage::RegisterAck { success } => if *success {
                    r is Ok
                } else {
                    r matches Err(Error::Protocol(m)) && m@ == "Registration failed"@
                },
                _ => r matches Err(Error::Protocol(m)) && m@ == "Unexpected response"@,
            },
    {
        match response {
            SignalingMessage::RegisterAck { success } => {
                if *success {
                    Ok(())
                } else {
                    Err(Error::Protocol(String::from_str("Registration failed")))
                }
            },
            _ => Err(Error::Protocol(String::from_str("Unexpected response"))),
        }
    }

    /// The offer to send to `to`.
    pub fn offer_message(&self, to: &str, sdp: &str) -> (m: SignalingMessage)
        ensures
            m matches SignalingMessage::Offer { from, to: t, sdp: d } && from@ == self.id() && t@
                == to@ && d@ == sdp@,
    {
        SignalingMessage::Offer {
            from: self.client_id.clone(),
            to: String::from_str(to),
            sdp: String::from_str(sdp),
        }
    }

    /// The answer to send to `to`.
    pub fn answer_message(&self, to: &str, sdp: &str) -> (m: SignalingMessage)
        ensures
            m matches SignalingMessage::Answer { from, to: t, sdp: d } && from@ == self.id() && t@
                == to@ && d@ == sdp@,
    {
        SignalingMessage::Answer {
            from: self.client_id.clone(),
            to: String::from_str(to),
            sdp: String::from_str(sdp),
        }
    }

    /// The ICE candidate message to send to `to`.
    pub fn ice_candidate_message(&self, to: &str, candidate: IceCandidate) -> (m: SignalingMessage)
        ensures
            m matches SignalingMessage::IceCandidate { from, to: t, candidate: c } && from@
                == self.id() && t@ == to@ && c == candidate,
    {
        SignalingMessage::IceCandidate {
            from: self.client_id.clone(),
            to: String::from_str(to),
            candidate,
        }
    }

    /// The event a received message gives: an offer, an answer, an ICE
    /// candidate and an error report each give their event; a peer list and
    /// anything else give none.
    pub fn handle_message(msg: SignalingMessage) -> (e: Option<SignalingEvent>)
        ensures
            match msg {
                SignalingMessage::Offer { from, to: _, sdp } => e == Some(
                    SignalingEvent::OfferReceived { from, sdp },
                ),
                SignalingMessage::Answer { from, to: _, sdp } => e == Some(
                    SignalingEvent::AnswerReceived { from, sdp },
                ),
                SignalingMessage::IceCandidate { from, to: _, candidate } => e == Some(
                    SignalingEvent::IceCandidateReceived { from, candidate },
                ),
                SignalingMessage::Error { message } => e == Some(SignalingEvent::Error(message)),
                _ => e is None,
            },
    {
        match msg {
            SignalingMessage::PeerList { peers: _ } => None,
            SignalingMessage::Offer { from, to: _, sdp } => Some(
                SignalingEvent::OfferReceived { from, sdp },
            ),
            SignalingMessage::Answer { from, to: _, sdp } => Some(
                SignalingEvent::AnswerReceived { from, sdp },
            ),
            SignalingMessage::IceCandidate { from, to: _, candidate } => Some(
                SignalingEvent::IceCandidateReceived { from, candidate },
            ),
            SignalingMessage::Error { message } => Some(SignalingEvent::Error(message)),
            _ => None,
        }
    }
}

/// The kind of a session description.
#[derive(Debug, Clone, Copy, PartialEq, Eq, Structural)]
pub enum SdpType {
    /// An offer.
    Offer,
    /// An answer.
    Answer,
}

impl SdpType {
    /// The name of the kind: `offer` or `answer`.
    pub fn name(&self) -> (s: &'static str)
        ensures
            s@ == match self {
                SdpType::Offer => "offer"@,
                SdpType::Answer => "answer"@,
            },
    {
        match self {
            SdpType::Offer => "offer",
            SdpType::Answer => "answer",
        }
    }

    /// The kind named by a text: `offer` or `answer`, or none.
    pub fn parse(text: &str) -> (t: Option<SdpType>)
        ensures
            text@ == "offer"@ ==> t == Some(SdpType::Offer),
            text@ == "answer"@ ==> t == Some(SdpType::Answer),
            text@ != "offer"@ && text@ != "answer"@ ==> t is None,
    {
        proof {
            reveal_strlit("offer");
            reveal_strlit("answer");
            assert("offer"@.len() != "answer"@.len());
        }
        let s = String::from_str(text);
        if s == String::from_str("offer") {
            Some(SdpType::Offer)
        } else if s == String::from_str("answer") {
            Some(SdpType::Answer)
        } else {
            None
        }
    }
}

/// A session description: its kind, the candidates and the credentials.
#[derive(Debug)]
pub struct SdpMessage {
    /// Offer or answer.
    pub sdp_type: SdpType,
    /// The candidates.
    pub candidates: Vec<IceCandidate>,
    /// The credentials.
    pub credentials: IceCredentials,
}

impl SdpMessage {
    /// An offer with the agent's candidates and credentials.
    pub fn new_offer(ice_agent: &IceAgent) -> (m: Self)
        ensures
            m.sdp_type == SdpType::Offer,
            m.candidates@ == ice_agent.candidates(),
            m.credentials == ice_agent.credentials(),
    {
        SdpMessage {
            sdp_type: SdpType::Offer,
            candidates: ice_agent.get_candidates(),
            credentials: ice_agent.get_credentials(),
        }
    }

    /// A session description from the parts read from its JSON text: the
    /// kind named by `type_text` (`offer` or `answer`), failing with a protocol
    /// error "Invalid SDP type" when it names neither; the candidates as
    /// given; the user name and password, empty when absent.
    pub fn from_fields(
        type_text: &str,
        candidates: Vec<IceCandidate>,
        ufrag: Option<&str>,
        password: Option<&str>,
    ) -> (r: Result<Self, Error>)
        ensures
            type_text@ != "offer"@ && type_text@ != "answer"@ ==> (r matches Err(Error::Protocol(m))
                && m@ == "Invalid SDP type"@),
            type_text@ == "offer"@ || type_text@ == "answer"@ ==> (r matches Ok(msg) && (msg.sdp_type
                == if type_text@ == "offer"@ {
                SdpType::Offer
            } else {
                SdpType::Answer
            }) && msg.candidates@ == candidates@ && msg.credentials.username@ == match ufrag {
                Some(u) => u@,
                None => ""@,
            } && msg.credentials.password@ == match password {
                Some(p) => p@,
                None => ""@,
            }),
    {
        let sdp_type = match SdpType::parse(type_text) {
            Some(t) => t,
            None => {
                return Err(Error::Protocol(String::from_str("Invalid SDP type")));
            },
        };
        let username = match ufrag {
            Some(u) => String::from_str(u),
            None => String::from_str(""),
        };
        let pass = match password {
            Some(p) => String::from_str(p),
            None => String::from_str(""),
        };
        Ok(SdpMessage { sdp_type, candidates, credentials: IceCredentials { username, password: pass } })
    }
}

} // verus!
