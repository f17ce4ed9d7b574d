use mesh_vpn::crypto::EncryptionContext;
use mesh_vpn::errors::Error;
use mesh_vpn::net::{ipv4, SocketAddress};
use mesh_vpn::wireguard::{
    create_timestamp, create_timestamp_at, derive_public_key, encode_handshake_initiation,
    encode_handshake_response, encrypt_with_nonce_suffix, generate_keypair, hex_encode, same_key,
    EncryptionKey, HandshakeInitiation, HandshakeResponse, MessageType, PacketAction, WireGuardPeer,
    WireGuardTunnel,
};

fn peer(key: [u8; 32], endpoint: Option<SocketAddress>) -> WireGuardPeer {
    WireGuardPeer {
        public_key: key,
        endpoint,
        allowed_ips: vec![("10.0.0.2".to_string(), 32)],
        persistent_keepalive: 25,
    }
}

fn tunnel_err(r: Result<impl std::fmt::Debug, Error>) -> String {
    match r {
        Err(Error::Tunnel(m)) => m,
        other => panic!("unexpected {:?}", other),
    }
}

#[test]
fn message_codes() {
    assert_eq!(MessageType::HandshakeInitiation.code(), 1);
    assert_eq!(MessageType::HandshakeResponse.code(), 2);
    assert_eq!(MessageType::CookieReply.code(), 3);
    assert_eq!(MessageType::TransportData.code(), 4);
}

#[test]
fn public_key_is_clamped_sha256() {
    let public = derive_public_key(&[0u8; 32]);
    assert_eq!(
        hex_encode(&public),
        "60687aadf862bd776c8fc18b8e9f8e20089714856ee233b3902a591d0d5f2965"
    );
    let (private, public) = generate_keypair().unwrap();
    assert_eq!(derive_public_key(&private), public);
    assert_eq!(public[0] & 7, 0);
    assert_eq!(public[31] & 0xc0, 0x40);
}

#[test]
fn timestamps() {
    assert_eq!(create_timestamp_at(0x0102), [2, 1, 0, 0, 0, 0, 0, 0, 1, 0, 0, 0]);
    let now = create_timestamp().unwrap();
    assert_eq!(&now[8..], &[1, 0, 0, 0]);
    let secs = u64::from_le_bytes(now[..8].try_into().unwrap());
    assert!(secs > 1_600_000_000);
}

#[test]
fn hex_and_key_comparison() {
    assert_eq!(hex_encode(&[0xde, 0xad, 0xbe, 0xef, 0x00]), "deadbeef00");
    assert_eq!(hex_encode(&[]), "");
    assert!(same_key(&[1u8; 32], &[1u8; 32]));
    let mut other = [1u8; 32];
    other[31] = 2;
    assert!(!same_key(&[1u8; 32], &other));
}

#[test]
fn encryption_key_counter() {
    let mut k = EncryptionKey::new([5u8; 32]);
    assert_eq!(k.counter, 0);
    assert_eq!(k.nonce, [0u8; 12]);
    k.increment_counter();
    assert_eq!(k.counter, 1);
    assert_eq!(k.nonce, [0, 0, 0, 0, 1, 0, 0, 0, 0, 0, 0, 0]);
    k.counter = 0x1ff;
    k.increment_counter();
    assert_eq!(k.nonce, [0, 0, 0, 0, 0, 2, 0, 0, 0, 0, 0, 0]);
    assert_eq!(k.key, [5u8; 32]);
}

#[test]
fn handshake_encodings() {
    let init = HandshakeInitiation {
        sender_index: 0x01020304,
        ephemeral: [9u8; 32],
        encrypted_static: vec![1, 2, 3],
        encrypted_timestamp: vec![4],
        mac1: [0xaa; 16],
        mac2: [0xbb; 16],
    };
    let b = encode_handshake_initiation(&init);
    assert_eq!(&b[..8], &[1, 0, 0, 28, 1, 2, 3, 4]);
    assert_eq!(&b[8..40], &[9u8; 32]);
    assert_eq!(&b[40..45], &[0, 3, 1, 2, 3]);
    assert_eq!(&b[45..48], &[0, 1, 4]);
    assert_eq!(&b[48..64], &[0xaa; 16]);
    assert_eq!(&b[64..], &[0xbb; 16]);
    let resp = HandshakeResponse {
        sender_index: 7,
        receiver_index: 0xfffffffe,
        ephemeral: [0u8; 32],
        encrypted_nothing: vec![],
        mac1: [0u8; 16],
        mac2: [0u8; 16],
    };
    let r = encode_handshake_response(&resp);
    assert_eq!(r.len(), 78);
    assert_eq!(&r[..12], &[2, 0, 0, 40, 0, 0, 0, 7, 0xff, 0xff, 0xff, 0xfe]);
    assert_eq!(&r[44..46], &[0, 0]);
}

#[test]
fn nonce_suffix_encryption_round_trip() {
    let key = [8u8; 32];
    let suffix = [1, 2, 3, 4, 5, 6, 7, 8];
    let c = encrypt_with_nonce_suffix(&key, &suffix, b"hi there").unwrap();
    assert_eq!(&c[..8], &suffix);
    assert_eq!(c.len(), 8 + 8 + 16);
    let ctx = EncryptionContext::new(key);
    let nonce = [0, 0, 0, 0, 1, 2, 3, 4, 5, 6, 7, 8];
    assert_eq!(ctx.decrypt(nonce, &c[8..]).unwrap(), b"hi there".to_vec());
}

#[test]
fn tunnel_keys_and_indices() {
    let mut t = WireGuardTunnel::new(Some([3u8; 32]));
    assert_eq!(t.local_public_key(), derive_public_key(&[3u8; 32]));
    assert_eq!(t.allocate_sender_index(), 1);
    assert_eq!(t.allocate_sender_index(), 2);
    let r = WireGuardTunnel::new(None);
    assert_eq!(r.local_public_key()[0] & 7, 0);
}

#[test]
fn tunnel_handshake_initiation() {
    let mut t = WireGuardTunnel::new(Some([3u8; 32]));
    let ep = SocketAddress::new(ipv4(203, 0, 113, 1), 51820);
    let key = [0x11u8; 32];
    assert_eq!(tunnel_err(t.initiate_handshake(&key)), "Peer not found");
    t.add_peer(peer(key, Some(ep)));
    let (msg, dest) = t.initiate_handshake(&key).unwrap().unwrap();
    assert_eq!(dest, ep);
    assert_eq!(&msg[..8], &[1, 0, 0, 28, 0, 0, 0, 1]);
    assert_eq!(msg.len(), 168);
    assert_eq!(&msg[40..42], &[0, 56]);
    assert_eq!(&msg[98..100], &[0, 36]);
    assert_eq!(&msg[136..], &[0u8; 32]);
    let (msg2, _) = t.initiate_handshake(&key).unwrap().unwrap();
    assert_eq!(&msg2[4..8], &[0, 0, 0, 2]);

    let fixed = t.build_handshake_initiation(&key, [1u8; 32], [2u8; 8], [3u8; 8], [4u8; 12]);
    let (fixed_msg, _) = fixed.unwrap().unwrap();
    assert_eq!(&fixed_msg[8..40], &[1u8; 32]);
    assert_eq!(&fixed_msg[42..50], &[2u8; 8]);

    let silent = [0x22u8; 32];
    t.add_peer(peer(silent, None));
    assert!(t.initiate_handshake(&silent).unwrap().is_none());
    t.remove_peer(&key);
    assert_eq!(tunnel_err(t.initiate_handshake(&key)), "Peer not found");
}

#[test]
fn tunnel_send_packet() {
    let mut t = WireGuardTunnel::new(Some([3u8; 32]));
    let ep = SocketAddress::new(ipv4(203, 0, 113, 1), 51820);
    let key = [0x11u8; 32];
    assert_eq!(tunnel_err(t.send_packet(&key, b"x")), "Peer not found");
    let silent = [0x22u8; 32];
    t.add_peer(peer(silent, None));
    assert_eq!(tunnel_err(t.send_packet(&silent, b"x")), "Peer has no endpoint");
    t.add_peer(peer(key, Some(ep)));
    let (msg, dest) = t.send_packet(&key, b"payload").unwrap().unwrap();
    assert_eq!(dest, ep);
    assert_eq!(msg[0], 1);
}

#[test]
fn tunnel_handle_packet() {
    let mut t = WireGuardTunnel::new(Some([3u8; 32]));
    let ep = SocketAddress::new(ipv4(203, 0, 113, 1), 51820);
    let stranger = SocketAddress::new(ipv4(198, 51, 100, 7), 1234);
    t.add_peer(peer([0x11u8; 32], Some(ep)));

    assert!(matches!(t.handle_packet(&[], ep), Ok(PacketAction::Nothing)));
    assert_eq!(tunnel_err(t.handle_packet(&[1, 0, 0], ep)), "Invalid handshake initiation");
    let init = [1u8, 0, 0, 0xaa, 0xbb, 0xcc, 0xdd, 0, 0];
    match t.handle_packet(&init, ep) {
        Ok(PacketAction::Reply(msg, dest)) => {
            assert_eq!(dest, ep);
            assert_eq!(msg.len(), 78);
            assert_eq!(&msg[..12], &[2, 0, 0, 40, 0, 0, 0, 1, 0xaa, 0xbb, 0xcc, 0xdd]);
        }
        other => panic!("unexpected {:?}", other),
    }
    assert!(matches!(t.handle_packet(&init, stranger), Ok(PacketAction::Nothing)));
    assert!(matches!(t.handle_packet(&[2, 0, 0, 0], ep), Ok(PacketAction::Nothing)));
    assert!(matches!(t.handle_packet(&[9, 9], ep), Ok(PacketAction::Nothing)));
    assert_eq!(tunnel_err(t.handle_packet(&[4, 0, 0, 0], ep)), "Invalid transport message");
    assert_eq!(
        tunnel_err(t.handle_packet(&[4u8; 48], ep)),
        "No session found for receiver index"
    );
    assert_eq!(
        tunnel_err(t.decrypt_packet(1, 0, &[0u8; 20])),
        "No session found for receiver index"
    );
}

#[test]
fn tunnel_encrypt_helpers() {
    let t = WireGuardTunnel::new(Some([3u8; 32]));
    let id = t.encrypt_identity(&[0u8; 32]).unwrap();
    assert_eq!(id.len(), 8 + 32 + 16);
    let ts = t.encrypt_timestamp(&[1u8; 12]).unwrap();
    assert_eq!(ts.len(), 8 + 12 + 16);
    let d = t.encrypt_data(&[6u8; 32], b"abc").unwrap();
    assert_eq!(d.len(), 3 + 16);
}
