use mesh_vpn::ice::{
    base64_encode, binding_request_with, calculate_priority, CandidateType, IceAgent, IceCandidate,
    IceCredentials, IceLiteAgent,
};
use mesh_vpn::net::{ipv4, SocketAddress};
use mesh_vpn::stun::StunResponse;

#[test]
fn priorities_exact() {
    assert_eq!(calculate_priority(CandidateType::Host, 65535, 1), 2130706431);
    assert_eq!(calculate_priority(CandidateType::Srflx, 100, 1), 1677747455);
    assert_eq!(calculate_priority(CandidateType::Prflx, 0, 1), 1845494015);
    assert_eq!(calculate_priority(CandidateType::Relay, 65535, 1), 16777215);
    assert_eq!(calculate_priority(CandidateType::Host, 0, 256), 126 << 24);
    assert_eq!(calculate_priority(CandidateType::Relay, 0, 0), 256);
}

#[test]
fn priorities_order_by_kind() {
    let kinds = [CandidateType::Host, CandidateType::Prflx, CandidateType::Srflx, CandidateType::Relay];
    for pref in [0u32, 1, 100, 65535] {
        for comp in [1u16, 2, 256] {
            for w in kinds.windows(2) {
                assert!(calculate_priority(w[0], pref, comp) > calculate_priority(w[1], pref, comp));
            }
        }
    }
}

#[test]
fn candidate_constructors_and_sdp() {
    let h = IceCandidate::new_host(ipv4(192, 168, 1, 10), 5000, 1);
    assert_eq!(h.foundation, "11");
    assert_eq!(h.protocol, "UDP");
    assert_eq!(h.priority, 2130706431);
    assert_eq!(h.generation, 0);
    assert_eq!(h.to_sdp_string(), "candidate:11 1 udp 2130706431 192.168.1.10 5000 typ host");
    let s = IceCandidate::new_srflx(ipv4(203, 0, 113, 5), 6000, 1, 100);
    assert_eq!(s.to_sdp_string(), "candidate:21 1 udp 1677747455 203.0.113.5 6000 typ srflx");
    let r = IceCandidate::new_relay(ipv4(198, 51, 100, 1), 3478, 2);
    assert_eq!(r.foundation, "32");
    assert_eq!(r.to_sdp_string(), "candidate:32 2 udp 16777214 198.51.100.1 3478 typ relay");
}

#[test]
fn base64_values() {
    assert_eq!(base64_encode(b""), "");
    assert_eq!(base64_encode(b"f"), "Zg==");
    assert_eq!(base64_encode(b"fo"), "Zm8=");
    assert_eq!(base64_encode(b"foo"), "Zm9v");
    assert_eq!(base64_encode(b"hello"), "aGVsbG8=");
    assert_eq!(base64_encode(&[0xfb, 0xff]), "+/8=");
}

#[test]
fn credentials_are_base64_of_random_bytes() {
    let c = IceCredentials::new();
    assert_eq!(c.username.len(), 24);
    assert_eq!(c.password.len(), 32);
    let d = IceCredentials::new();
    assert_ne!(c.username, d.username);
}

#[test]
fn binding_request_is_padded() {
    let tid = [7u8; 12];
    let msg = binding_request_with("abcde", &tid);
    assert_eq!(msg.len() % 4, 0);
    assert_eq!(&msg[..4], &[0, 1, 0, 20]);
    assert_eq!(&msg[4..16], &tid);
    assert_eq!(&msg[16..20], &[0, 6, 0, 5]);
    assert_eq!(&msg[20..25], b"abcde");
    assert_eq!(&msg[25..], &[0, 0, 0]);
    let even = binding_request_with("abcd", &tid);
    assert_eq!(even.len(), 24);
}

#[test]
fn agent_gathers_host_and_srflx() {
    let mut agent = IceAgent::new();
    let local = SocketAddress::new(ipv4(192, 168, 1, 2), 5000);
    let public = SocketAddress::new(ipv4(203, 0, 113, 9), 6000);
    let v = agent.gather_candidates(local, Some(StunResponse::from(public)));
    assert_eq!(v.len(), 2);
    assert_eq!(v[0].candidate_type, CandidateType::Host);
    assert_eq!(v[0].connection_address, ipv4(192, 168, 1, 2));
    assert_eq!(v[1].candidate_type, CandidateType::Srflx);
    assert_eq!(v[1].connection_port, 6000);
    assert_eq!(v[1].priority, calculate_priority(CandidateType::Srflx, 65535, 1));
    assert_eq!(agent.get_candidates().len(), 2);

    let mut other = IceAgent::new();
    let w = other.gather_candidates(local, Some(StunResponse::from(local)));
    assert_eq!(w.len(), 1);
    let mut third = IceAgent::new();
    assert_eq!(third.gather_candidates(local, None).len(), 1);
}

#[test]
fn discover_srflx_only_when_mapped_differs() {
    let local = SocketAddress::new(ipv4(10, 0, 0, 2), 4000);
    let mapped = SocketAddress::new(ipv4(10, 0, 0, 2), 4001);
    assert_eq!(IceAgent::discover_srflx_candidates(local, &StunResponse::from(mapped)).len(), 1);
    assert_eq!(IceAgent::discover_srflx_candidates(local, &StunResponse::from(local)).len(), 0);
}

#[test]
fn select_best_candidate_follows_local_kinds() {
    let mut agent = IceAgent::new();
    let remotes = vec![
        IceCandidate::new_host(ipv4(10, 0, 0, 9), 1000, 1),
        IceCandidate::new_relay(ipv4(10, 0, 0, 8), 2000, 1),
        IceCandidate::new_srflx(ipv4(10, 0, 0, 7), 3000, 1, 5),
    ];
    assert!(agent.select_best_candidate(&[]).is_none());
    let first = agent.select_best_candidate(&remotes).unwrap();
    assert_eq!(first.connection_port, 1000);
    agent.add_candidate(IceCandidate::new_relay(ipv4(1, 1, 1, 1), 1, 1));
    agent.add_candidate(IceCandidate::new_srflx(ipv4(2, 2, 2, 2), 2, 1, 65535));
    let best = agent.select_best_candidate(&remotes).unwrap();
    assert_eq!(best.connection_port, 3000);
}

#[test]
fn agent_credentials_and_requests() {
    let mut agent = IceAgent::new();
    let creds = agent.get_credentials();
    let msg = agent.create_binding_request();
    assert_eq!(msg.len() % 4, 0);
    assert_eq!(&msg[20..20 + creds.username.len()], creds.username.as_bytes());
    agent.set_remote_credentials(IceCredentials::new());
    let mut lite = IceLiteAgent::new();
    assert_eq!(lite.get_local_ufrag(), lite.get_credentials().username);
    assert_eq!(lite.get_local_password(), lite.get_credentials().password);
    let local = SocketAddress::new(ipv4(10, 0, 0, 2), 4000);
    assert_eq!(lite.gather_candidates(local, None).len(), 1);
}

#[test]
fn base64_padding_and_concatenation() {
    for n in 0..10usize {
        let data: Vec<u8> = (0..n as u8).collect();
        let text = base64_encode(&data);
        assert_eq!(text.len(), 4 * ((n + 2) / 3));
        let pad = (3 - n % 3) % 3;
        assert_eq!(text.matches('=').count(), pad);
        assert!(text.ends_with(&"=".repeat(pad)));
    }
    let a = b"abcdef";
    let b = b"gh";
    let mut ab = a.to_vec();
    ab.extend_from_slice(b);
    assert_eq!(base64_encode(&ab), base64_encode(a) + &base64_encode(b));
}

#[test]
fn srflx_ignores_flow_and_scope() {
    let local = SocketAddress::new(mesh_vpn::net::IpAddress::V6([0xfe80, 0, 0, 0, 0, 0, 0, 2]), 4000);
    let mut mapped = local;
    mapped.scope_id = 5;
    assert_eq!(IceAgent::discover_srflx_candidates(local, &StunResponse::from(mapped)).len(), 0);
}
