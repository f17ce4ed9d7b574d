use mesh_vpn::errors::Error;
use mesh_vpn::net::{ipv4, SocketAddress};
use mesh_vpn::stun::{
    classify_nat_behavior, generate_transaction_id, nat_detection, response_would_overrun, NatType,
    StunResponse, StunServer,
};

fn server() -> StunServer {
    StunServer::new(SocketAddress::new(ipv4(142, 250, 193, 123), 3478))
}

fn response_with(attrs: &[u8]) -> Vec<u8> {
    let mut v = vec![0x01, 0x01, 0, attrs.len() as u8];
    v.extend_from_slice(&[0u8; 16]);
    v.extend_from_slice(attrs);
    v
}

#[test]
fn binding_request_layout() {
    let tid = [9u8; 12];
    let msg = StunServer::binding_request(&tid);
    assert_eq!(msg.len(), 16);
    assert_eq!(&msg[..4], &[0, 1, 0, 0]);
    assert_eq!(&msg[4..], &tid);
}

#[test]
fn transaction_ids_are_random() {
    assert_ne!(generate_transaction_id(), generate_transaction_id());
}

#[test]
fn server_address_is_kept() {
    assert_eq!(server().server_address(), SocketAddress::new(ipv4(142, 250, 193, 123), 3478));
}

#[test]
fn parse_reads_the_address_attribute() {
    let attr = [0x00, 0x20, 0x00, 0x0c, 0x00, 0x01, 0xaa, 0xbb, 1, 2, 3, 4, 0x1f, 0x90, 0, 0];
    let data = response_with(&attr);
    assert!(!response_would_overrun(&data));
    let r = server().parse_response(&data).unwrap();
    assert_eq!(r.mapped_address, SocketAddress::new(ipv4(1, 2, 3, 4), 8080));
    assert_eq!(r.source_address, r.mapped_address);
    assert!(r.changed_address.is_none());
}

#[test]
fn parse_keeps_the_last_address_and_skips_others() {
    let mut attrs = vec![0x80, 0x22, 0x00, 0x03, b'a', b'b', b'c', 0];
    attrs.extend_from_slice(&[0x00, 0x20, 0x00, 0x0c, 0x00, 0x01, 0, 0, 1, 1, 1, 1, 0, 1, 0, 0]);
    attrs.extend_from_slice(&[0x00, 0x20, 0x00, 0x0c, 0x00, 0x01, 0, 0, 5, 6, 7, 8, 0, 2, 0, 0]);
    let data = response_with(&attrs);
    let r = server().parse_response(&data).unwrap();
    assert_eq!(r.mapped_address, SocketAddress::new(ipv4(5, 6, 7, 8), 2));
}

#[test]
fn parse_errors() {
    match server().parse_response(&[0u8; 19]) {
        Err(Error::NatTraversal(m)) => assert_eq!(m, "Response too short"),
        other => panic!("unexpected {:?}", other),
    }
    let mut wrong = response_with(&[]);
    wrong[1] = 0x11;
    match server().parse_response(&wrong) {
        Err(Error::NatTraversal(m)) => assert_eq!(m, "Not a STUN binding response"),
        other => panic!("unexpected {:?}", other),
    }
    let ipv6_family = [0x00, 0x20, 0x00, 0x0c, 0x00, 0x02, 0, 0, 1, 2, 3, 4, 0, 1, 0, 0];
    match server().parse_response(&response_with(&ipv6_family)) {
        Err(Error::NatTraversal(m)) => assert_eq!(m, "No MAPPED-ADDRESS found"),
        other => panic!("unexpected {:?}", other),
    }
    match server().parse_response(&response_with(&[])) {
        Err(Error::NatTraversal(m)) => assert_eq!(m, "No MAPPED-ADDRESS found"),
        other => panic!("unexpected {:?}", other),
    }
}

#[test]
fn overrun_is_detected() {
    let short_attr = [0x00, 0x20, 0x00, 0x08, 0x00, 0x01, 0, 0, 1, 2, 3, 4];
    assert!(response_would_overrun(&response_with(&short_attr)));
    assert!(!response_would_overrun(&[0u8; 10]));
}

#[test]
fn nat_classification() {
    let local = SocketAddress::new(ipv4(192, 168, 1, 2), 5000);
    let public = SocketAddress::new(ipv4(203, 0, 113, 9), 6000);
    let other = SocketAddress::new(ipv4(203, 0, 113, 9), 6001);
    let same_local = StunResponse::from(local);
    let pub1 = StunResponse::from(public);
    let pub2 = StunResponse::from(other);
    assert_eq!(classify_nat_behavior(&same_local, &same_local, local), NatType::OpenInternet);
    assert_eq!(classify_nat_behavior(&pub1, &pub1, local), NatType::FullCone);
    assert_eq!(classify_nat_behavior(&pub1, &pub2, local), NatType::Symmetric);
    assert_eq!(nat_detection(&pub1), (NatType::Unknown, public));
}
