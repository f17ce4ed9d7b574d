# mesh_vpn

MeshVPN is a decentralized VPN with NAT traversal. This crate holds its core
as a library verified with Verus, and a command-line program around it.

## Layout

- `src/` — the verified library:
  - `net` — IP and socket addresses as plain values, and their text form;
  - `crypto` — X25519 key agreement, SHA-256 key derivation and
    ChaCha20Poly1305 encryption, through small trusted wrappers of the
    `x25519-dalek`, `sha2`, `chacha20poly1305` and `hex` crates;
  - `wire` — big- and little-endian byte encodings;
  - `wireguard` — the tunnel state: peers, sender indices, sessions, the
    handshake and transport messages, and what to do with each datagram;
  - `stun`, `ice` — STUN requests and responses, ICE candidates, their
    priorities and SDP text, and the choice of a remote candidate;
  - `signaling` — the signaling messages, what the server answers and the
    events a client draws;
  - `router` — per-address datagram counts and a bounded connection pool;
  - `node`, `config`, `tun` — the mesh node, its configuration and the TUN
    device;
  - `errors`, `clock`, `entropy` — the error type, time and randomness.
- `app/` — the program: command-line handling, configuration files, logging,
  and the sockets, timers and tasks that carry out what the library decides.
- `tests/` — tests of the library on concrete values.
