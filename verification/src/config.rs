//! Configuration: the node, its peers, signaling, STUN and the TUN device.
//! Reading and writing configuration files is left to the caller.

use vstd::prelude::*;
use std::path::PathBuf;
use crate::crypto::{KeyPair, PublicKey, SecretKey, x25519_public};
use crate::errors::Error;
use crate::net::{IpAddress, SocketAddress, ipv4};

verus! {

/// A file system path, carried as it is.
#[verifier::external_type_specification]
#[verifier::external_body]
pub struct ExPathBuf(PathBuf);

/// Node configuration.
pub struct NodeConfig {
    /// Node name.
    pub name: String,
    /// Listen address.
    pub listen_addr: SocketAddress,
    /// Virtual IP address.
    pub virtual_ip: IpAddress,
    /// Virtual network prefix length.
    pub virtual_cidr: u8,
    /// Public key of this node.
    pub public_key: PublicKey,
    /// Private key of this node (never written to a configuration file).
    pub private_key: Option<SecretKey>,
}

/// Whether an address is the IPv4 address with these octets.
pub open spec fn is_ipv4(ip: IpAddress, a: u8, b: u8, c: u8, d: u8) -> bool {
    ip matches IpAddress::V4(o) && o@ == seq![a, b, c, d]
}

impl Default for NodeConfig {
    fn default() -> (c: Self)
        ensures
            c.name@ == "mesh-node"@,
            is_ipv4(c.listen_addr.ip, 0, 0, 0, 0) && c.listen_addr.port == 51820,
            is_ipv4(c.virtual_ip, 10, 0, 0, 1),
            c.virtual_cidr == 24,
            c.public_key@ == Seq::new(32, |i: int| 0u8),
            c.private_key is None,
    {
        let public_key = PublicKey::from_bytes([0u8; 32]);
        proof {
            assert(public_key@ =~= Seq::new(32, |i: int| 0u8));
        }
        NodeConfig {
            name: String::from_str("mesh-node"),
            listen_addr: SocketAddress::new(ipv4(0, 0, 0, 0), 51820),
            virtual_ip: ipv4(10, 0, 0, 1),
            virtual_cidr: 24,
            public_key,
            private_key: None,
        }
    }
}

/// Peer configuration.
pub struct PeerConfig {
    /// Peer name.
    pub name: Option<String>,
    /// Public key.
    pub public_key: PublicKey,
    /// Endpoint, if known.
    pub endpoint: Option<SocketAddress>,
    /// Allowed IPs, with their prefix lengths.
    pub allowed_ips: Vec<(IpAddress, u8)>,
    /// Persistent keepalive interval in seconds.
    pub persistent_keepalive: Option<u16>,
}

impl Clone for PeerConfig {
    fn clone(&self) -> (r: Self)
        ensures
            r.name == self.name,
            r.public_key == self.public_key,
            r.endpoint == self.endpoint,
            r.allowed_ips@ == self.allowed_ips@,
            r.persistent_keepalive == self.persistent_keepalive,
    {
        let name = match &self.name {
            Some(n) => Some(n.clone()),
            None => None,
        };
        let mut allowed_ips: Vec<(IpAddress, u8)> = Vec::new();
        let mut i: usize = 0;
        while i < self.allowed_ips.len()
            invariant
                i <= self.allowed_ips@.len(),
                allowed_ips@ == self.allowed_ips@.subrange(0, i as int),
            decreases self.allowed_ips@.len() - i,
        {
            allowed_ips.push(self.allowed_ips[i]);
            i = i + 1;
            proof {
                assert(allowed_ips@ =~= self.allowed_ips@.subrange(0, i as int));
            }
        }
        proof {
            assert(self.allowed_ips@.subrange(0, i as int) =~= self.allowed_ips@);
        }
        PeerConfig {
            name,
            public_key: self.public_key,
            endpoint: self.endpoint,
            allowed_ips,
            persistent_keepalive: self.persistent_keepalive,
        }
    }
}

/// Signaling server configuration.
pub struct SignalingConfig {
    /// Signaling server address.
    pub server_addr: SocketAddress,
    /// Whether this node is a signaling server.
    pub is_server: bool,
}

impl Default for SignalingConfig {
    fn default() -> (c: Self)
        ensures
            is_ipv4(c.server_addr.ip, 127, 0, 0, 1) && c.server_addr.port == 8080,
            !c.is_server,
    {
        SignalingConfig { server_addr: SocketAddress::new(ipv4(127, 0, 0, 1), 8080), is_server: false }
    }
}

/// STUN server configuration.
pub struct StunConfig {
    /// STUN server addresses.
    pub servers: Vec<SocketAddress>,
    /// Whether STUN is used.
    pub enabled: bool,
}

impl Default for StunConfig {
    fn default() -> (c: Self)
        ensures
            c.servers@.len() == 2,
            is_ipv4(c.servers@[0].ip, 142, 250, 193, 123) && c.servers@[0].port == 3478,
            is_ipv4(c.servers@[1].ip, 142, 250, 193, 127) && c.servers@[1].port == 3478,
            c.enabled,
    {
        let mut servers: Vec<SocketAddress> = Vec::new();
        servers.push(SocketAddress::new(ipv4(142, 250, 193, 123), 3478));
        servers.push(SocketAddress::new(ipv4(142, 250, 193, 127), 3478));
        StunConfig { servers, enabled: true }
    }
}

/// TUN device configuration.
pub struct TunConfig {
    /// TUN device name.
    pub name: Option<String>,
    /// Whether the TUN device is used.
    pub enabled: bool,
}

impl Default for TunConfig {
    fn default() -> (c: Self)
        ensures
            c.name matches Some(n) && n@ == "mesh0"@,
            c.enabled,
    {
        TunConfig { name: Some(String::from_str("mesh0")), enabled: true }
    }
}

/// The whole configuration.
pub struct Config {
    /// Node configuration.
    pub node: NodeConfig,
    /// Peers.
    pub peers: Vec<PeerConfig>,
    /// Signaling configuration.
    pub signaling: SignalingConfig,
    /// STUN configuration.
    pub stun: StunConfig,
    /// TUN configuration.
    pub tun: TunConfig,
    /// The file the configuration was read from or is written to.
    pub config_path: Option<PathBuf>,
}

/// Whether a configuration holds the default values of every part but the
/// node's keys.
pub open spec fn is_default_but_keys(c: Config) -> bool {
    &&& c.node.name@ == "mesh-node"@
    &&& is_ipv4(c.node.listen_addr.ip, 0, 0, 0, 0) && c.node.listen_addr.port == 51820
    &&& is_ipv4(c.node.virtual_ip, 10, 0, 0, 1)
    &&& c.node.virtual_cidr == 24
    &&& c.peers@.len() == 0
    &&& is_ipv4(c.signaling.server_addr.ip, 127, 0, 0, 1) && c.signaling.server_addr.port == 8080
    &&& !c.signaling.is_server
    &&& c.stun.servers@.len() == 2
    &&& is_ipv4(c.stun.servers@[0].ip, 142, 250, 193, 123) && c.stun.servers@[0].port == 3478
    &&& is_ipv4(c.stun.servers@[1].ip, 142, 250, 193, 127) && c.stun.servers@[1].port == 3478
    &&& c.stun.enabled
    &&& c.tun.name matches Some(n) && n@ == "mesh0"@
    &&& c.tun.enabled
    &&& c.config_path is None
}

impl Default for Config {
    fn default() -> (c: Self)
        ensures
            is_default_but_keys(c),
            c.node.public_key@ == Seq::new(32, |i: int| 0u8),
            c.node.private_key is None,
    {
        Config {
            node: NodeConfig::default(),
            peers: Vec::new(),
            signaling: SignalingConfig::default(),
            stun: StunConfig::default(),
            tun: TunConfig::default(),
            config_path: None,
        }
    }
}

impl Config {
    /// A default configuration with a fresh key pair: the public key is the
    /// one of the private key.
    pub fn generate() -> (r: Result<Self, Error>)
        ensures
            r matches Ok(c) && is_default_but_keys(c) && (c.node.private_key matches Some(sk)
                && c.node.public_key@ == x25519_public(sk@) && sk@.len() == 32),
    {
        let keypair = KeyPair::generate();
        let mut config = Self::default();
        config.node.public_key = *keypair.public_key();
        config.node.private_key = Some(keypair.secret_key().clone());
        Ok(config)
    }
}

} // verus!
