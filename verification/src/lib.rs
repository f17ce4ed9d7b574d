//! MeshVPN: a decentralized VPN with NAT traversal, built around a verified core.

use vstd::prelude::*;

pub mod clock;
pub mod config;
pub mod crypto;
pub mod entropy;
pub mod errors;
pub mod ice;
pub mod net;
pub mod node;
pub mod router;
pub mod signaling;
pub mod stun;
pub mod tun;
pub mod wire;
pub mod wireguard;

pub use config::{Config, NodeConfig, PeerConfig};
pub use crypto::{KeyPair, PublicKey, SecretKey};
pub use errors::{Error, Result};
pub use node::{MeshNode, NodeState, PeerInfo, PeerState};

verus! {

/// The version of the crate.
pub const VERSION: &'static str = "0.2.0";

/// The text of the user agent: `MeshVPN/` followed by the version.
pub open spec fn spec_user_agent() -> Seq<char> {
    "MeshVPN/"@ + VERSION@
}

/// The user agent string used for networking.
pub fn user_agent() -> (agent: String)
    ensures
        agent@ == spec_user_agent(),
{
    let mut agent = String::from_str("MeshVPN/");
    agent.append(VERSION);
    agent
}

} // verus!
