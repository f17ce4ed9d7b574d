use mesh_vpn::ice::IceCandidate;
use mesh_vpn::ice::IceAgent;
use mesh_vpn::errors::Error;
use mesh_vpn::net::{ipv4, SocketAddress};
use mesh_vpn::signaling::{
    SdpMessage, SdpType, SignalingClient, SignalingEvent, SignalingMessage, SignalingServer,
};

fn addr() -> SocketAddress {
    SocketAddress::new(ipv4(127, 0, 0, 1), 8080)
}

fn register(id: &str) -> SignalingMessage {
    SignalingMessage::Register { client_id: id.to_string(), public_key: [1u8; 32] }
}

#[test]
fn server_registers_and_lists_peers() {
    let mut server = SignalingServer::new(addr());
    assert_eq!(server.address(), addr());
    let mut id_a = None;
    let out = server.handle_message(&mut id_a, register("a"));
    assert_eq!(id_a.as_deref(), Some("a"));
    assert_eq!(out.len(), 2);
    assert!(matches!(out[0], SignalingMessage::RegisterAck { success: true }));
    match &out[1] {
        SignalingMessage::PeerList { peers } => {
            assert_eq!(peers.len(), 1);
            assert_eq!(peers[0].id, "a");
            assert!(peers[0].endpoint.is_none());
        }
        other => panic!("unexpected {:?}", other),
    }
    let mut id_b = None;
    let out = server.handle_message(&mut id_b, register("b"));
    match &out[1] {
        SignalingMessage::PeerList { peers } => assert_eq!(peers.len(), 2),
        other => panic!("unexpected {:?}", other),
    }
    server.handle_disconnect(id_a);
    let mut id_c = None;
    let out = server.handle_message(&mut id_c, register("c"));
    match &out[1] {
        SignalingMessage::PeerList { peers } => {
            let ids: Vec<&str> = peers.iter().map(|p| p.id.as_str()).collect();
            assert_eq!(ids, vec!["b", "c"]);
        }
        other => panic!("unexpected {:?}", other),
    }
}

#[test]
fn server_answers_other_messages() {
    let mut server = SignalingServer::new(addr());
    let mut id = None;
    assert!(matches!(server.handle_message(&mut id, SignalingMessage::Ping)[..], [SignalingMessage::Pong]));
    let offer = SignalingMessage::Offer { from: "a".into(), to: "b".into(), sdp: "x".into() };
    assert!(server.handle_message(&mut id, offer).is_empty());
    assert!(server.handle_message(&mut id, SignalingMessage::Pong).is_empty());
    let cand = SignalingMessage::IceCandidate {
        from: "a".into(),
        to: "b".into(),
        candidate: IceCandidate::new_host(ipv4(10, 0, 0, 1), 1, 1),
    };
    let out = server.handle_message(&mut id, cand);
    assert_eq!(out.len(), 1);
    assert!(matches!(&out[0], SignalingMessage::IceCandidate { from, .. } if from == "a"));
    assert!(id.is_none());
    server.handle_disconnect(None);
}

#[test]
fn client_messages_and_events() {
    let mut client = SignalingClient::new(addr(), [2u8; 32]);
    assert_eq!(client.server_address(), addr());
    assert_eq!(client.client_id().len(), 36);
    assert!(!client.connected());
    client.set_connected(true);
    assert!(client.connected());
    match client.register_message() {
        SignalingMessage::Register { client_id, public_key } => {
            assert_eq!(client_id, client.client_id());
            assert_eq!(public_key, [2u8; 32]);
        }
        other => panic!("unexpected {:?}", other),
    }
    match client.offer_message("peer", "sdp-text") {
        SignalingMessage::Offer { from, to, sdp } => {
            assert_eq!(from, client.client_id());
            assert_eq!(to, "peer");
            assert_eq!(sdp, "sdp-text");
        }
        other => panic!("unexpected {:?}", other),
    }
    assert!(matches!(client.answer_message("p", "s"), SignalingMessage::Answer { .. }));
    let c = IceCandidate::new_host(ipv4(10, 0, 0, 1), 1, 1);
    assert!(matches!(client.ice_candidate_message("p", c), SignalingMessage::IceCandidate { .. }));

    let ev = SignalingClient::handle_message(SignalingMessage::Offer {
        from: "x".into(),
        to: "y".into(),
        sdp: "s".into(),
    });
    assert!(matches!(ev, Some(SignalingEvent::OfferReceived { ref from, ref sdp }) if from == "x" && sdp == "s"));
    let ev = SignalingClient::handle_message(SignalingMessage::Error { message: "bad".into() });
    assert!(matches!(ev, Some(SignalingEvent::Error(ref m)) if m == "bad"));
    assert!(SignalingClient::handle_message(SignalingMessage::Ping).is_none());
    assert!(SignalingClient::handle_message(SignalingMessage::PeerList { peers: vec![] }).is_none());
}

#[test]
fn client_register_response() {
    assert!(SignalingClient::check_register_response(&SignalingMessage::RegisterAck { success: true }).is_ok());
    match SignalingClient::check_register_response(&SignalingMessage::RegisterAck { success: false }) {
        Err(Error::Protocol(m)) => assert_eq!(m, "Registration failed"),
        other => panic!("unexpected {:?}", other),
    }
    match SignalingClient::check_register_response(&SignalingMessage::Pong) {
        Err(Error::Protocol(m)) => assert_eq!(m, "Unexpected response"),
        other => panic!("unexpected {:?}", other),
    }
}

#[test]
fn sdp_kinds_and_offers() {
    assert_eq!(SdpType::Offer.name(), "offer");
    assert_eq!(SdpType::Answer.name(), "answer");
    assert_eq!(SdpType::parse("offer"), Some(SdpType::Offer));
    assert_eq!(SdpType::parse("answer"), Some(SdpType::Answer));
    assert_eq!(SdpType::parse("Offer"), None);
    let mut agent = IceAgent::new();
    agent.add_candidate(IceCandidate::new_host(ipv4(10, 0, 0, 1), 1, 1));
    let m = SdpMessage::new_offer(&agent);
    assert_eq!(m.sdp_type, SdpType::Offer);
    assert_eq!(m.candidates.len(), 1);
    assert_eq!(m.credentials.username, agent.get_credentials().username);
}

#[test]
fn sdp_from_fields() {
    let c = IceCandidate::new_host(ipv4(10, 0, 0, 1), 1, 1);
    let m = SdpMessage::from_fields("answer", vec![c], Some("u"), None).unwrap();
    assert_eq!(m.sdp_type, SdpType::Answer);
    assert_eq!(m.candidates.len(), 1);
    assert_eq!(m.credentials.username, "u");
    assert_eq!(m.credentials.password, "");
    match SdpMessage::from_fields("bogus", vec![], None, None) {
        Err(Error::Protocol(msg)) => assert_eq!(msg, "Invalid SDP type"),
        other => panic!("unexpected {:?}", other),
    }
}
