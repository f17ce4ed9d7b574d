use mesh_vpn::crypto::{DerivedKey, EncryptionContext, KeyPair, PublicKey, SecretKey};
use mesh_vpn::errors::Error;
use std::hash::{Hash, Hasher};

fn bytes_of_hex(s: &str) -> [u8; 32] {
    let mut out = [0u8; 32];
    for i in 0..32 {
        out[i] = u8::from_str_radix(&s[2 * i..2 * i + 2], 16).unwrap();
    }
    out
}

#[test]
fn test_key_pair_generation() {
    let alice = KeyPair::generate();
    let bob = KeyPair::generate();

    assert_ne!(alice.public_key(), bob.public_key());
}

#[test]
fn test_diffie_hellman() {
    let alice = KeyPair::generate();
    let bob = KeyPair::generate();

    let alice_shared = alice.derive_shared_secret(bob.public_key());
    let bob_shared = bob.derive_shared_secret(alice.public_key());

    assert_eq!(alice_shared.as_bytes(), bob_shared.as_bytes());
}

#[test]
fn test_encryption_decryption() {
    let alice = KeyPair::generate();
    let bob = KeyPair::generate();

    let alice_shared = alice.derive_shared_secret(bob.public_key());
    let alice_key = DerivedKey::from_shared_secret(&alice_shared, b"test");

    let bob_shared = bob.derive_shared_secret(alice.public_key());
    let bob_key = DerivedKey::from_shared_secret(&bob_shared, b"test");

    assert_eq!(alice_key.as_bytes(), bob_key.as_bytes());

    let alice_context = alice_key.to_encryption_context();
    let bob_context = bob_key.to_encryption_context();

    let nonce = EncryptionContext::generate_nonce();
    let plaintext = b"Hello, world!";

    let ciphertext = alice_context.encrypt(nonce, plaintext).unwrap();
    let decrypted = bob_context.decrypt(nonce, &ciphertext).unwrap();

    assert_eq!(plaintext, &decrypted[..]);
}

#[test]
fn test_public_key_hex() {
    let key_pair = KeyPair::generate();
    let hex = key_pair.public_key().to_hex();
    let decoded = PublicKey::from_hex(&hex).unwrap();
    assert_eq!(key_pair.public_key().as_bytes(), decoded.as_bytes());
}

#[test]
fn x25519_known_vectors() {
    let alice_secret = bytes_of_hex("77076d0a7318a57d3c16c17251b26645df4c2f87ebc0992ab177fba51db92c2a");
    let bob_secret = bytes_of_hex("5dab087e624a8a4b79e17f8b83800ee66f3bb1292618b6fd1c2f8b27ff88e0eb");
    let alice = KeyPair::from_secret_key(SecretKey::from_bytes(alice_secret));
    let bob = KeyPair::from_secret_key(SecretKey::from_bytes(bob_secret));
    assert_eq!(
        alice.public_key().to_hex(),
        "8520f0098930a754748b7ddcb43ef75a0dbf3a0d26381af4eba4a98eaa9b4e6a"
    );
    assert_eq!(
        bob.public_key().to_hex(),
        "de9edb7d7b7dc1b4d35b61c2ece435373f8343c85b78674dadfc7e146f882b4f"
    );
    let shared = alice.derive_shared_secret(bob.public_key());
    assert_eq!(
        shared.as_bytes(),
        &bytes_of_hex("4a5d9d5ba4ce2de1728e3bf480350f25e07e21c947d19e3376f09b3c1e161742")
    );
    let from_secret = PublicKey::from_secret(&SecretKey::from_bytes(alice_secret));
    assert_eq!(&from_secret, alice.public_key());
}

#[test]
fn public_key_from_hex_errors() {
    match PublicKey::from_hex("zz") {
        Err(Error::Crypto(m)) => assert_eq!(m, "Invalid hex string"),
        other => panic!("unexpected {:?}", other),
    }
    match PublicKey::from_hex("abc") {
        Err(Error::Crypto(m)) => assert_eq!(m, "Invalid hex string"),
        other => panic!("unexpected {:?}", other),
    }
    match PublicKey::from_hex("abcd") {
        Err(Error::Crypto(m)) => assert_eq!(m, "Public key must be 32 bytes"),
        other => panic!("unexpected {:?}", other),
    }
    let upper = "ABCDEF0123456789ABCDEF0123456789ABCDEF0123456789ABCDEF0123456789";
    let k = PublicKey::from_hex(upper).unwrap();
    assert_eq!(k.to_hex(), upper.to_lowercase());
}

#[test]
fn public_key_to_hex_exact() {
    let mut b = [0u8; 32];
    b[0] = 0xde;
    b[1] = 0xad;
    b[31] = 0x0f;
    let k = PublicKey::from_bytes(b);
    let h = k.to_hex();
    assert_eq!(h.len(), 64);
    assert!(h.starts_with("dead00"));
    assert!(h.ends_with("000f"));
}

#[test]
fn derived_key_is_sha256_of_secret_and_salt() {
    let secret = SecretKey::from_bytes([7u8; 32]);
    let pair = KeyPair::from_secret_key(secret);
    let shared = pair.derive_shared_secret(pair.public_key());
    let k1 = DerivedKey::from_shared_secret(&shared, b"a");
    let k2 = DerivedKey::from_shared_secret(&shared, b"b");
    assert_ne!(k1.as_bytes(), k2.as_bytes());
    let k3 = DerivedKey::from_shared_secret(&shared, b"a");
    assert_eq!(k1.as_bytes(), k3.as_bytes());
}

#[test]
fn encryption_adds_a_tag_and_rejects_tampering() {
    let ctx = EncryptionContext::new([3u8; 32]);
    let nonce = [1u8; 12];
    let c = ctx.encrypt(nonce, b"abc").unwrap();
    assert_eq!(c.len(), 3 + 16);
    assert_eq!(ctx.decrypt(nonce, &c).unwrap(), b"abc".to_vec());
    let mut bad = c.clone();
    bad[0] ^= 1;
    match ctx.decrypt(nonce, &bad) {
        Err(Error::Crypto(m)) => assert_eq!(m, "Decryption failed"),
        other => panic!("unexpected {:?}", other),
    }
    let other = EncryptionContext::new([4u8; 32]);
    assert!(other.decrypt(nonce, &c).is_err());
    let empty = ctx.encrypt(nonce, b"").unwrap();
    assert_eq!(empty.len(), 16);
}

#[test]
fn increment_nonce_counts_big_endian() {
    let mut n = [0u8; 12];
    EncryptionContext::increment_nonce(&mut n);
    assert_eq!(n, [0, 0, 0, 0, 0, 0, 0, 0, 0, 0, 0, 1]);
    let mut n = [0u8; 12];
    n[11] = 0xff;
    EncryptionContext::increment_nonce(&mut n);
    assert_eq!(n, [0, 0, 0, 0, 0, 0, 0, 0, 0, 0, 1, 0]);
    let mut n = [0xffu8; 12];
    EncryptionContext::increment_nonce(&mut n);
    assert_eq!(n, [0u8; 12]);
}

#[test]
fn generated_nonces_differ() {
    let a = EncryptionContext::generate_nonce();
    let b = EncryptionContext::generate_nonce();
    assert_ne!(a, b);
}

#[test]
fn decrypt_rejects_short_ciphertexts() {
    let ctx = EncryptionContext::new([9u8; 32]);
    for len in 0..16 {
        match ctx.decrypt([0u8; 12], &vec![0u8; len]) {
            Err(Error::Crypto(m)) => assert_eq!(m, "Decryption failed"),
            other => panic!("unexpected {:?}", other),
        }
    }
    let c = ctx.encrypt([2u8; 12], b"xyz").unwrap();
    assert!(ctx.decrypt([3u8; 12], &c).is_err());
    let same = EncryptionContext::new([9u8; 32]);
    assert_eq!(same.decrypt([2u8; 12], &c).unwrap(), ctx.decrypt([2u8; 12], &c).unwrap());
}

fn hash_of(k: &PublicKey) -> u64 {
    let mut h = std::collections::hash_map::DefaultHasher::new();
    k.hash(&mut h);
    h.finish()
}

#[test]
fn public_keys_equal_as_field_elements() {
    let zero = PublicKey::from_bytes([0u8; 32]);
    let mut top = [0u8; 32];
    top[31] = 0x80;
    let top = PublicKey::from_bytes(top);
    assert_eq!(zero, top);
    assert_eq!(hash_of(&zero), hash_of(&top));
    let mut prime = [0xffu8; 32];
    prime[0] = 0xed;
    prime[31] = 0x7f;
    assert_eq!(PublicKey::from_bytes(prime), zero);
    let mut prime_plus_one = prime;
    prime_plus_one[0] = 0xee;
    let mut one = [0u8; 32];
    one[0] = 1;
    assert_eq!(PublicKey::from_bytes(prime_plus_one), PublicKey::from_bytes(one));
    assert_eq!(hash_of(&PublicKey::from_bytes(prime_plus_one)), hash_of(&PublicKey::from_bytes(one)));
    assert_ne!(PublicKey::from_bytes(one), zero);
    let mut below_prime = prime;
    below_prime[0] = 0xec;
    assert_ne!(PublicKey::from_bytes(below_prime), zero);
}

#[test]
fn redacted_texts() {
    let mut b = [0u8; 32];
    b[0] = 0xab;
    b[7] = 0x01;
    let pair = KeyPair::from_secret_key(SecretKey::from_bytes(b));
    assert_eq!(pair.secret_key().debug_text(), "SecretKey { key: \"[REDACTED]\" }");
    let hex = pair.public_key().to_hex();
    assert_eq!(pair.public_key().debug_text(), format!("PublicKey({})", &hex[..16]));
    assert_eq!(
        pair.debug_text(),
        format!("KeyPair {{ public_key: PublicKey({}), secret_key: \"[REDACTED]\" }}", &hex[..16])
    );
}
