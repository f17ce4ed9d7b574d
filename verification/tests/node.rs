use mesh_vpn::config::{Config, PeerConfig};
use mesh_vpn::crypto::{KeyPair, PublicKey};
use mesh_vpn::errors::Error;
use mesh_vpn::net::{ipv4, SocketAddress};
use mesh_vpn::node::{MeshNode, NodeState, PeerState};

fn peer_config(key: PublicKey, name: &str) -> PeerConfig {
    PeerConfig {
        name: Some(name.to_string()),
        public_key: key,
        endpoint: Some(SocketAddress::new(ipv4(203, 0, 113, 4), 51820)),
        allowed_ips: vec![(ipv4(10, 0, 0, 2), 32)],
        persistent_keepalive: Some(25),
    }
}

#[test]
fn node_needs_a_private_key() {
    match MeshNode::new(Config::default()) {
        Err(Error::Config(m)) => assert_eq!(m, "No private key in config"),
        Err(e) => panic!("unexpected {:?}", e),
        Ok(_) => panic!("expected an error"),
    }
}

#[test]
fn node_from_generated_config() {
    let config = Config::generate().unwrap();
    let expected = config.node.public_key;
    let node = MeshNode::new(config).unwrap();
    assert_eq!(node.state(), NodeState::Stopped);
    assert_eq!(node.public_key(), &expected);
    assert!(node.peers().is_empty());
    let other = MeshNode::new(Config::generate().unwrap()).unwrap();
    assert_ne!(node.id(), other.id());
}

#[test]
fn peers_add_get_remove() {
    let mut node = MeshNode::new(Config::generate().unwrap()).unwrap();
    let a = *KeyPair::generate().public_key();
    let b = *KeyPair::generate().public_key();
    node.add_peer(peer_config(a, "alpha")).unwrap();
    node.add_peer(peer_config(b, "beta")).unwrap();
    assert_eq!(node.peers().len(), 2);
    let got = node.get_peer(&a).unwrap();
    assert_eq!(got.name.as_deref(), Some("alpha"));
    assert_eq!(got.state, PeerState::Disconnected);
    assert_eq!(got.bytes_sent, 0);
    assert!(got.last_handshake.is_none());
    node.add_peer(peer_config(a, "again")).unwrap();
    assert_eq!(node.peers().len(), 2);
    assert_eq!(node.get_peer(&a).unwrap().name.as_deref(), Some("again"));
    node.remove_peer(&a).unwrap();
    assert!(node.get_peer(&a).is_none());
    assert!(node.get_peer(&b).is_some());
    node.remove_peer(&a).unwrap();
    assert_eq!(node.peers().len(), 1);
}

#[test]
fn start_and_stop() {
    let mut config = Config::generate().unwrap();
    let a = *KeyPair::generate().public_key();
    config.peers.push(peer_config(a, "configured"));
    let mut node = MeshNode::new(config).unwrap();
    let addr = node.start_begin();
    assert_eq!(addr, SocketAddress::new(ipv4(0, 0, 0, 0), 51820));
    assert_eq!(node.state(), NodeState::Starting);
    node.start_finish().unwrap();
    assert_eq!(node.state(), NodeState::Running);
    assert!(node.get_peer(&a).is_some());
    node.stop().unwrap();
    assert_eq!(node.state(), NodeState::Stopped);
    assert!(node.get_peer(&a).is_some());
    node.start().unwrap();
    assert_eq!(node.state(), NodeState::Running);
}

#[test]
fn peers_are_found_under_equal_keys() {
    let mut node = MeshNode::new(Config::generate().unwrap()).unwrap();
    let mut raw = *KeyPair::generate().public_key().as_bytes();
    raw[31] &= 0x7f;
    let key = PublicKey::from_bytes(raw);
    raw[31] |= 0x80;
    let same = PublicKey::from_bytes(raw);
    node.add_peer(peer_config(key, "alpha")).unwrap();
    assert!(node.get_peer(&same).is_some());
    node.add_peer(peer_config(same, "again")).unwrap();
    assert_eq!(node.peers().len(), 1);
    assert_eq!(node.get_peer(&key).unwrap().name.as_deref(), Some("again"));
    node.remove_peer(&same).unwrap();
    assert!(node.get_peer(&key).is_none());
}
