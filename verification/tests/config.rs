use mesh_vpn::config::{Config, NodeConfig, SignalingConfig, StunConfig, TunConfig};
use mesh_vpn::crypto::PublicKey;
use mesh_vpn::errors::Error;
use mesh_vpn::net::{ipv4, SocketAddress};
use mesh_vpn::tun::{TunDevice, TunDeviceConfig};
use mesh_vpn::{user_agent, VERSION};

#[test]
fn default_configuration() {
    let c = Config::default();
    assert_eq!(c.node.name, "mesh-node");
    assert_eq!(c.node.listen_addr, SocketAddress::new(ipv4(0, 0, 0, 0), 51820));
    assert_eq!(c.node.virtual_ip, ipv4(10, 0, 0, 1));
    assert_eq!(c.node.virtual_cidr, 24);
    assert!(c.node.private_key.is_none());
    assert!(c.peers.is_empty());
    assert_eq!(c.signaling.server_addr, SocketAddress::new(ipv4(127, 0, 0, 1), 8080));
    assert!(!c.signaling.is_server);
    assert_eq!(c.stun.servers.len(), 2);
    assert_eq!(c.stun.servers[1], SocketAddress::new(ipv4(142, 250, 193, 127), 3478));
    assert!(c.stun.enabled);
    assert_eq!(c.tun.name.as_deref(), Some("mesh0"));
    assert!(c.tun.enabled);
    assert!(c.config_path.is_none());
    assert_eq!(NodeConfig::default().public_key, PublicKey::from_bytes([0u8; 32]));
    assert_eq!(SignalingConfig::default().server_addr.port(), 8080);
    assert!(StunConfig::default().enabled);
    assert!(TunConfig::default().enabled);
}

#[test]
fn generated_configuration_has_matching_keys() {
    let c = Config::generate().unwrap();
    let sk = c.node.private_key.as_ref().unwrap();
    assert_eq!(PublicKey::from_secret(sk), c.node.public_key);
    assert_eq!(c.node.name, "mesh-node");
}

#[test]
fn tun_device_names() {
    let d = TunDevice::new(TunDeviceConfig::default()).unwrap();
    assert_eq!(d.name(), "mesh0");
    let mut cfg = TunDeviceConfig::default();
    cfg.name = Some("wg7".to_string());
    assert_eq!(TunDevice::new(cfg).unwrap().name(), "wg7");
    let mut unnamed = TunDeviceConfig::default();
    unnamed.name = None;
    let d = TunDevice::new(unnamed).unwrap();
    assert_eq!(d.name(), "mesh0");
    assert!(d.read_packet().is_none());
    assert!(d.write_packet(&[1, 2, 3]).is_ok());
    assert_eq!(TunDeviceConfig::default().mtu, 1420);
}

#[test]
fn version_and_user_agent() {
    assert_eq!(VERSION, "0.2.0");
    assert_eq!(user_agent(), "MeshVPN/0.2.0");
}

#[test]
fn error_constructors_and_kinds() {
    assert!(matches!(Error::config("c"), Error::Config(m) if m == "c"));
    assert!(matches!(Error::crypto(String::from("k")), Error::Crypto(m) if m == "k"));
    assert!(matches!(Error::network("n"), Error::Network(m) if m == "n"));
    assert!(matches!(Error::nat_traversal("t"), Error::NatTraversal(m) if m == "t"));
    assert!(matches!(Error::tunnel("u"), Error::Tunnel(m) if m == "u"));
    assert!(matches!(Error::protocol("p"), Error::Protocol(m) if m == "p"));
    assert!(matches!(Error::invalid_argument("i"), Error::InvalidArgument(m) if m == "i"));
    assert!(matches!(Error::not_found("f"), Error::NotFound(m) if m == "f"));
    assert!(matches!(Error::internal("x"), Error::Internal(m) if m == "x"));
    assert!(Error::Timeout.is_timeout());
    assert!(!Error::Cancelled.is_timeout());
    assert!(Error::PermissionDenied.is_permission_denied());
    assert!(!Error::Timeout.is_permission_denied());
    assert!(Error::network("x").is_connection_error());
    assert!(Error::Timeout.is_connection_error());
    assert!(!Error::config("x").is_connection_error());
}
