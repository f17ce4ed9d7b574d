//! Keys and encryption: X25519 key agreement, SHA-256 key derivation and
//! ChaCha20Poly1305 authenticated encryption.
//!
//! The outside primitives are called through small wrappers below; what they
//! compute is named by the uninterpreted functions [`x25519_public`],
//! [`x25519_shared`], [`sha256`] and [`chacha20poly1305_seal`].

use vstd::prelude::*;
use chacha20poly1305::aead::{Aead, KeyInit};
use chacha20poly1305::Error as AeadError;
use hex::FromHexError;
use sha2::Digest;
use crate::errors::Error;
use crate::net::{hex_char, hex_digit};

verus! {

/// The error of the authenticated cipher.
#[verifier::external_type_specification]
#[verifier::external_body]
pub struct ExAeadError(AeadError);

/// The error of hexadecimal decoding.
#[verifier::external_type_specification]
#[verifier::external_body]
pub struct ExFromHexError(FromHexError);

/// The X25519 public key of a 32-byte secret (base point times the clamped
/// secret, as `x25519_dalek` computes it).
pub uninterp spec fn x25519_public(secret: Seq<u8>) -> Seq<u8>;

/// The X25519 shared secret of a 32-byte secret and a peer's public key.
pub uninterp spec fn x25519_shared(secret: Seq<u8>, peer_public: Seq<u8>) -> Seq<u8>;

/// The SHA-256 digest of some bytes.
pub uninterp spec fn sha256(data: Seq<u8>) -> Seq<u8>;

/// The ChaCha20Poly1305 ciphertext (with its 16-byte tag appended) of a
/// plaintext under a key and a nonce, with no associated data.
pub uninterp spec fn chacha20poly1305_seal(key: Seq<u8>, nonce: Seq<u8>, plaintext: Seq<u8>) -> Seq<u8>;

/// Whether the cipher accepts a message of this length: fewer than
/// `u32::MAX` blocks of 64 bytes.
pub open spec fn aead_length_ok(len: nat) -> bool {
    len / 64 < 0xffff_ffff
}

/// `x25519_dalek`: the public key of a secret
/// (`PublicKey::from(&StaticSecret::from(secret))`), named by [`x25519_public`].
#[verifier::external_body]
fn x25519_public_key(secret: &[u8; 32]) -> (p: [u8; 32])
    ensures
        p@ == x25519_public(secret@),
{
    x25519_dalek::PublicKey::from(&x25519_dalek::StaticSecret::from(*secret)).to_bytes()
}

/// `x25519_dalek`: `StaticSecret::diffie_hellman`, named by [`x25519_shared`].
/// It also states the agreement that the crate documents: when the peer's
/// public key is that of some secret `other`, the result is what `other`
/// computes with this secret's public key.
#[verifier::external_body]
fn x25519_diffie_hellman(secret: &[u8; 32], peer_public: &[u8; 32]) -> (s: [u8; 32])
    ensures
        s@ == x25519_shared(secret@, peer_public@),
        forall|other: Seq<u8>|
            other.len() == 32 && peer_public@ == #[trigger] x25519_public(other) ==> s@
                == x25519_shared(other, x25519_public(secret@)),
{
    x25519_dalek::StaticSecret::from(*secret).diffie_hellman(
        &x25519_dalek::PublicKey::from(*peer_public),
    ).to_bytes()
}

/// `x25519_dalek`: `StaticSecret::random_from_rng(OsRng)`, as bytes. Nothing
/// is claimed of the random bytes.
#[verifier::external_body]
fn x25519_random_secret() -> (s: [u8; 32]) {
    x25519_dalek::StaticSecret::random_from_rng(rand::rngs::OsRng).to_bytes()
}

/// `sha2`: `Sha256::digest`, named by [`sha256`].
#[verifier::external_body]
pub(crate) fn sha256_digest(data: &[u8]) -> (h: [u8; 32])
    ensures
        h@ == sha256(data@),
{
    sha2::Sha256::digest(data).into()
}

/// `chacha20poly1305`: `ChaCha20Poly1305::encrypt` with no associated data. It
/// fails exactly when the plaintext has `u32::MAX` blocks of 64 bytes or more;
/// otherwise the ciphertext is named by [`chacha20poly1305_seal`] and is 16
/// bytes longer than the plaintext.
#[verifier::external_body]
pub(crate) fn aead_encrypt(key: &[u8; 32], nonce: &[u8; 12], plaintext: &[u8]) -> (r: Result<Vec<u8>, AeadError>)
    ensures
        r is Ok <==> aead_length_ok(plaintext@.len()),
        r matches Ok(c) ==> c@ == chacha20poly1305_seal(key@, nonce@, plaintext@) && c@.len()
            == plaintext@.len() + 16,
{
    chacha20poly1305::ChaCha20Poly1305::new(key.into()).encrypt(
        chacha20poly1305::Nonce::from_slice(nonce),
        plaintext,
    )
}

/// `chacha20poly1305`: `ChaCha20Poly1305::decrypt` with no associated data. It
/// fails on a ciphertext shorter than the 16-byte tag; a plaintext it returns
/// is the ciphertext without its tag and seals back to the ciphertext under the
/// same key and nonce, and a ciphertext sealed from an acceptable plaintext
/// opens to that plaintext.
#[verifier::external_body]
pub(crate) fn aead_decrypt(key: &[u8; 32], nonce: &[u8; 12], ciphertext: &[u8]) -> (r: Result<Vec<u8>, AeadError>)
    ensures
        ciphertext@.len() < 16 ==> r is Err,
        r matches Ok(p) ==> chacha20poly1305_seal(key@, nonce@, p@) == ciphertext@
            && aead_length_ok(p@.len()) && p@.len() + 16 == ciphertext@.len(),
        forall|p: Seq<u8>| #[trigger] chacha20poly1305_seal(key@, nonce@, p) == ciphertext@ && aead_length_ok(p.len()) ==> (r is Ok && r.unwrap()@ == p),
{
    chacha20poly1305::ChaCha20Poly1305::new(key.into()).decrypt(
        chacha20poly1305::Nonce::from_slice(nonce),
        ciphertext,
    )
}

/// Lower-case hexadecimal text of bytes, two digits per byte, high digit first.
pub open spec fn hex_encoding(d: Seq<u8>) -> Seq<char>
    decreases d.len(),
{
    if d.len() == 0 {
        seq![]
    } else {
        seq![hex_char((d[0] / 16) as nat), hex_char((d[0] % 16) as nat)] + hex_encoding(
            d.skip(1),
        )
    }
}

/// The value of a hexadecimal digit, in either case.
pub open spec fn hex_value(c: char) -> Option<u8> {
    if '0' <= c && c <= '9' {
        Some(((c as u32) - 48) as u8)
    } else if 'a' <= c && c <= 'f' {
        Some(((c as u32) - 87) as u8)
    } else if 'A' <= c && c <= 'F' {
        Some(((c as u32) - 55) as u8)
    } else {
        None
    }
}

/// The bytes that hexadecimal text stands for: `None` when its length is odd
/// or a character is not a hexadecimal digit.
pub open spec fn hex_decoding(s: Seq<char>) -> Option<Seq<u8>>
    decreases s.len(),
{
    if s.len() == 0 {
        Some(seq![])
    } else if s.len() == 1 {
        None
    } else {
        match (hex_value(s[0]), hex_value(s[1]), hex_decoding(s.skip(2))) {
            (Some(a), Some(b), Some(rest)) => Some(seq![(a * 16 + b) as u8] + rest),
            _ => None,
        }
    }
}

/// `hex::encode`: lower-case hexadecimal text.
#[verifier::external_body]
fn hex_encode_bytes(data: &[u8]) -> (s: String)
    ensures
        s@ == hex_encoding(data@),
{
    hex::encode(data)
}

/// `hex::decode`: it fails on an odd length or a character that is not a
/// hexadecimal digit (a non-ASCII character is never one), and otherwise gives
/// the bytes, digits read in either case.
#[verifier::external_body]
fn hex_decode_text(s: &str) -> (r: Result<Vec<u8>, FromHexError>)
    ensures
        r is Ok <==> hex_decoding(s@) is Some,
        r matches Ok(v) ==> hex_decoding(s@) == Some(v@),
{
    hex::decode(s)
}

/// Decoding the encoding of some bytes gives them back.
pub proof fn lemma_hex_roundtrip(d: Seq<u8>)
    ensures
        hex_decoding(hex_encoding(d)) == Some(d),
    decreases d.len(),
{
    if d.len() > 0 {
        lemma_hex_roundtrip(d.skip(1));
        let e = hex_encoding(d);
        assert(e.skip(2) =~= hex_encoding(d.skip(1)));
        let hi = (d[0] / 16) as nat;
        let lo = (d[0] % 16) as nat;
        assert(hex_value(hex_char(hi)) == Some(hi as u8));
        assert(hex_value(hex_char(lo)) == Some(lo as u8));
        assert(seq![(hi * 16 + lo) as u8] + d.skip(1) =~= d);
    }
}

/// Copies 32 bytes out of a vector of that length.
fn array_32(v: &Vec<u8>) -> (a: [u8; 32])
    requires
        v@.len() == 32,
    ensures
        a@ == v@,
{
    let mut a = [0u8; 32];
    let mut i: usize = 0;
    while i < 32
        invariant
            i <= 32,
            v@.len() == 32,
            forall|k: int| 0 <= k < i ==> a@[k] == v@[k],
        decreases 32 - i,
    {
        a[i] = v[i];
        i = i + 1;
    }
    proof {
        assert(a@ =~= v@);
    }
    a
}

/// An X25519 secret key, by its 32 bytes.
pub struct SecretKey {
    bytes: [u8; 32],
}

impl Clone for SecretKey {
    fn clone(&self) -> (r: Self)
        ensures
            r == *self,
    {
        SecretKey { bytes: self.bytes }
    }
}

impl View for SecretKey {
    type V = Seq<u8>;

    closed spec fn view(&self) -> Seq<u8> {
        self.bytes@
    }
}

/// An X25519 public key, by its 32 bytes.
#[derive(Clone, Copy, Debug)]
pub struct PublicKey {
    bytes: [u8; 32],
}

impl View for PublicKey {
    type V = Seq<u8>;

    closed spec fn view(&self) -> Seq<u8> {
        self.bytes@
    }
}

/// Two public keys with the same bytes are the same key.
pub proof fn lemma_public_key_view_injective(a: PublicKey, b: PublicKey)
    requires
        a@ == b@,
    ensures
        a == b,
{
    assert(a.bytes =~= b.bytes);
}

/// The field element that an encoded key stands for: its bytes read least
/// significant first, with bit 255 cleared, reduced modulo `2^255 - 19`.
/// Two keys are equal when they stand for the same element.
pub open spec fn key_element(s: Seq<u8>) -> nat {
    (le_value(s) % two_pow_255()) % field_prime()
}

/// Byte `i` of the prime, least significant first.
fn prime_byte_at(i: usize) -> (b: u8)
    requires
        i < 32,
    ensures
        b == prime_byte(i as int),
{
    if i == 0 {
        0xed
    } else if i == 31 {
        0x7f
    } else {
        0xff
    }
}

/// Clearing bit 255 of an encoding reduces its value modulo `2^255`.
proof fn lemma_clear_top_bit(b: Seq<u8>, m: Seq<u8>)
    requires
        b.len() == 32,
        m == b.update(31, b[31] & 127u8),
    ensures
        le_value(m) == le_value(b) % two_pow_255(),
        le_value(m) < two_pow_255(),
{
    let hi = b[31];
    let lo7 = hi & 127u8;
    assert(hi == lo7 + 128 * (hi / 128) && lo7 < 128) by (bit_vector)
        requires
            lo7 == hi & 127u8,
    ;
    assert(m.drop_last() =~= b.drop_last());
    lemma_le_value_bound(b.drop_last());
    let l = le_value(b.drop_last()) as int;
    let p = pow256(31) as int;
    let h = (hi / 128) as int;
    let lo = lo7 as int;
    assert(le_value(b) == l + p * (hi as int));
    assert(le_value(m) == l + p * lo);
    assert(p * (hi as int) == p * lo + (128 * p) * h) by (nonlinear_arith)
        requires
            hi as int == lo + 128 * h,
    ;
    assert(p * lo <= p * 127) by (nonlinear_arith)
        requires
            0 <= p,
            0 <= lo < 128,
    ;
    assert(h * (128 * p) == (128 * p) * h) by (nonlinear_arith);
    assert(two_pow_255() == 128 * p);
    vstd::arithmetic::div_mod::lemma_fundamental_div_mod_converse(
        le_value(b) as int,
        two_pow_255() as int,
        h,
        le_value(m) as int,
    );
}

/// The canonical encoding of the field element a key stands for.
fn canonical_key(b: &[u8; 32]) -> (c: [u8; 32])
    ensures
        le_value(c@) == key_element(b@),
{
    let mut m = *b;
    m[31] = m[31] & 127;
    proof {
        lemma_clear_top_bit(b@, m@);
        lemma_prime_bytes();
    }
    let ghost pb = Seq::new(32, |i: int| prime_byte(i));
    let mut d = [0u8; 32];
    let mut borrow: u8 = 0;
    let mut i: usize = 0;
    while i < 32
        invariant
            i <= 32,
            borrow <= 1,
            pb == Seq::new(32, |k: int| prime_byte(k)),
            le_value(m@.take(i as int)) - le_value(pb.take(i as int)) == le_value(d@.take(i as int))
                - borrow * pow256(i as nat),
        decreases 32 - i,
    {
        let need: u16 = prime_byte_at(i) as u16 + borrow as u16;
        let mi: u16 = m[i] as u16;
        let ghost d0 = d@;
        let ghost b0 = borrow;
        if mi >= need {
            d[i] = (mi - need) as u8;
            borrow = 0;
        } else {
            d[i] = (mi + 256 - need) as u8;
            borrow = 1;
        }
        proof {
            assert(d@.take(i as int) =~= d0.take(i as int));
            lemma_le_value_step(m@, i as int);
            lemma_le_value_step(pb, i as int);
            lemma_le_value_step(d@, i as int);
            assert(m@[i as int] - pb[i as int] - b0 == d@[i as int] - 256 * borrow);
            let q = pow256(i as nat) as int;
            assert(pow256((i + 1) as nat) == 256 * pow256(i as nat));
            assert(q * (m@[i as int] - pb[i as int] - b0) == q * (d@[i as int] - 256 * borrow))
                by (nonlinear_arith)
                requires
                    m@[i as int] - pb[i as int] - b0 == d@[i as int] - 256 * borrow,
            ;
            assert(q * (m@[i as int] - pb[i as int] - b0) == q * m@[i as int] - q * pb[i as int] - q * b0)
                by (nonlinear_arith);
            assert(q * (d@[i as int] - 256 * borrow) == q * d@[i as int] - (256 * q) * borrow)
                by (nonlinear_arith);
            assert(b0 * q == q * b0) by (nonlinear_arith);
            assert(borrow * (256 * q) == (256 * q) * borrow) by (nonlinear_arith);
            assert(le_value(m@.take(i + 1)) == le_value(m@.take(i as int)) + q * m@[i as int]);
            assert(le_value(pb.take(i + 1)) == le_value(pb.take(i as int)) + q * pb[i as int]);
            assert(le_value(d@.take(i + 1)) == le_value(d@.take(i as int)) + q * d@[i as int]);
        }
        i = i + 1;
    }
    proof {
        assert(m@.take(32) =~= m@);
        assert(d@.take(32) =~= d@);
        assert(pb.take(32) =~= pb);
        lemma_le_value_bound(d@);
        lemma_pow256_positive(32);
        assert(pow256(32) == 256 * pow256(31));
    }
    proof {
        let x = le_value(m@) as int;
        let pr = field_prime() as int;
        if borrow == 0 {
            vstd::arithmetic::div_mod::lemma_fundamental_div_mod_converse(x, pr, 1, x - pr);
        } else {
            vstd::arithmetic::div_mod::lemma_small_mod(x as nat, pr as nat);
        }
    }
    if borrow == 0 {
        d
    } else {
        m
    }
}

impl PartialEq for PublicKey {
    /// Whether the two keys stand for the same field element: their
    /// canonical encodings are the same.
    fn eq(&self, other: &Self) -> (r: bool) {
        let a = canonical_key(&self.bytes);
        let b = canonical_key(&other.bytes);
        let mut i: usize = 0;
        while i < 32
            invariant
                i <= 32,
                le_value(a@) == key_element(self@),
                le_value(b@) == key_element(other@),
                forall|k: int| 0 <= k < i ==> a@[k] == b@[k],
            decreases 32 - i,
        {
            if a[i] != b[i] {
                proof {
                    assert(a@[i as int] != b@[i as int]);
                    assert(a@ != b@);
                    if le_value(a@) == le_value(b@) {
                        lemma_le_value_injective(a@, b@);
                    }
                }
                return false;
            }
            i = i + 1;
        }
        proof {
            assert(a@ =~= b@);
        }
        true
    }
}

impl vstd::std_specs::cmp::PartialEqSpecImpl for PublicKey {
    open spec fn obeys_eq_spec() -> bool {
        true
    }

    open spec fn eq_spec(&self, other: &PublicKey) -> bool {
        key_element(self@) == key_element(other@)
    }
}

/// Hashing an array feeds its elements to the hasher (`<[T; N] as Hash>::hash`).
/// Nothing is claimed of the hasher's state afterwards.
pub assume_specification<Elem: std::hash::Hash, const N: usize, Hs: std::hash::Hasher>[ <[Elem; N] as std::hash::Hash>::hash::<Hs> ](data: &[Elem; N], state: &mut Hs);

impl core::hash::Hash for PublicKey {
    /// Hashes the canonical encoding, so that equal keys hash alike.
    fn hash<H: core::hash::Hasher>(&self, state: &mut H) {
        let c = canonical_key(&self.bytes);
        c.hash(state);
    }
}

impl Eq for PublicKey {

}

/// The result of a key agreement, by its 32 bytes.
pub struct SharedSecret {
    bytes: [u8; 32],
}

impl View for SharedSecret {
    type V = Seq<u8>;

    closed spec fn view(&self) -> Seq<u8> {
        self.bytes@
    }
}

impl SharedSecret {
    /// The bytes of this shared secret.
    pub fn as_bytes(&self) -> (b: &[u8; 32])
        ensures
            b@ == self@,
    {
        &self.bytes
    }
}

impl SecretKey {
    /// The text that stands for this key in diagnostics, which never shows
    /// the key: `SecretKey { key: "[REDACTED]" }`.
    pub fn debug_text(&self) -> (s: String)
        ensures
            s@ == "SecretKey { key: \"[REDACTED]\" }"@,
    {
        String::from_str("SecretKey { key: \"[REDACTED]\" }")
    }

    /// A new random secret key.
    pub fn random() -> (k: Self)
        ensures
            k@.len() == 32,
    {
        SecretKey { bytes: x25519_random_secret() }
    }

    /// A secret key from its bytes.
    pub fn from_bytes(bytes: [u8; 32]) -> (k: Self)
        ensures
            k@ == bytes@,
    {
        SecretKey { bytes }
    }

    /// The bytes of this secret key.
    pub fn as_bytes(&self) -> (b: &[u8; 32])
        ensures
            b@ == self@,
    {
        &self.bytes
    }

    /// The public key of this secret key.
    pub fn public_key(&self) -> (p: PublicKey)
        ensures
            p@ == x25519_public(self@),
    {
        PublicKey { bytes: x25519_public_key(&self.bytes) }
    }

    /// The shared secret of this key and a peer's public key. When the peer's
    /// key is the public key of a secret `other`, it equals what `other`
    /// derives with this key's public key.
    pub fn derive_shared_secret(&self, peer_public: &PublicKey) -> (s: SharedSecret)
        ensures
            s@ == x25519_shared(self@, peer_public@),
            forall|other: Seq<u8>|
                other.len() == 32 && peer_public@ == #[trigger] x25519_public(other) ==> s@
                    == x25519_shared(other, x25519_public(self@)),
    {
        SharedSecret { bytes: x25519_diffie_hellman(&self.bytes, &peer_public.bytes) }
    }
}

impl PublicKey {
    /// A public key from its bytes.
    pub fn from_bytes(bytes: [u8; 32]) -> (k: Self)
        ensures
            k@ == bytes@,
    {
        PublicKey { bytes }
    }

    /// The bytes of this public key.
    pub fn as_bytes(&self) -> (b: &[u8; 32])
        ensures
            b@ == self@,
    {
        &self.bytes
    }

    /// The public key of a secret key.
    pub fn from_secret(sk: &SecretKey) -> (k: Self)
        ensures
            k@ == x25519_public(sk@),
    {
        sk.public_key()
    }

    /// The text that stands for this key in diagnostics: `PublicKey(` and
    /// the first 16 hexadecimal digits of the key, then `)`.
    pub fn debug_text(&self) -> (s: String)
        ensures
            s@ == "PublicKey("@ + hex_encoding(self@).take(16) + ")"@,
    {
        let mut s = String::from_str("PublicKey(");
        let ghost start = s@;
        let mut i: usize = 0;
        proof {
            assert(self@.skip(0) =~= self@);
        }
        while i < 8
            invariant
                i <= 8,
                self@.len() == 32,
                s@.len() == start.len() + 2 * i,
                start == "PublicKey("@,
                hex_encoding(self@) == s@.skip(start.len() as int) + hex_encoding(self@.skip(i as int)),
                s@.take(start.len() as int) == start,
            decreases 8 - i,
        {
            let b = self.bytes[i];
            let ghost before = s@;
            s.push(hex_digit(b / 16));
            s.push(hex_digit(b % 16));
            proof {
                assert(self@.skip(i as int).skip(1) =~= self@.skip(i + 1));
                assert(self@.skip(i as int)[0] == b);
                assert(s@.skip(start.len() as int) =~= before.skip(start.len() as int) + seq![
                    hex_char((b / 16) as nat),
                    hex_char((b % 16) as nat),
                ]);
                assert(s@.take(start.len() as int) =~= before.take(start.len() as int));
            }
            i = i + 1;
        }
        let ghost body = s@.skip(start.len() as int);
        proof {
            assert(body.len() == 16);
            assert((body + hex_encoding(self@.skip(8))).take(16) =~= body);
            assert(s@ =~= start + body);
        }
        let ghost mid = s@;
        s.push(')');
        proof {
            reveal_strlit(")");
            assert(hex_encoding(self@).take(16) == body);
            assert(")"@ =~= seq![')']);
            assert(s@ =~= mid + ")"@);
            assert(s@ =~= "PublicKey("@ + hex_encoding(self@).take(16) + ")"@);
        }
        s
    }

    /// The lower-case hexadecimal text of this key (64 characters).
    pub fn to_hex(&self) -> (s: String)
        ensures
            s@ == hex_encoding(self@),
    {
        hex_encode_bytes(&self.bytes)
    }

    /// Parses hexadecimal text into a public key. It fails with a crypto error
    /// "Invalid hex string" when the text is not hexadecimal (odd length, or a
    /// character that is not a digit), and with "Public key must be 32 bytes"
    /// when it stands for some other number of bytes.
    pub fn from_hex(hex_str: &str) -> (r: Result<Self, Error>)
        ensures
            match hex_decoding(hex_str@) {
                None => r matches Err(Error::Crypto(m)) && m@ == "Invalid hex string"@,
                Some(b) => if b.len() == 32 {
                    r matches Ok(k) && k@ == b
                } else {
                    r matches Err(Error::Crypto(m)) && m@ == "Public key must be 32 bytes"@
                },
            },
    {
        let bytes = match hex_decode_text(hex_str) {
            Ok(b) => b,
            Err(_) => {
                return Err(Error::Crypto(String::from_str("Invalid hex string")));
            },
        };
        if bytes.len() != 32 {
            return Err(Error::Crypto(String::from_str("Public key must be 32 bytes")));
        }
        let arr = array_32(&bytes);
        Ok(Self::from_bytes(arr))
    }
}

/// The text of a public key read back is the key.
pub proof fn lemma_public_key_hex_roundtrip(k: PublicKey)
    ensures
        hex_decoding(hex_encoding(k@)) == Some(k@),
        k@.len() == 32,
{
    lemma_hex_roundtrip(k@);
}

/// A key pair: a secret key and its public key.
pub struct KeyPair {
    secret_key: SecretKey,
    public_key: PublicKey,
}

impl Clone for KeyPair {
    fn clone(&self) -> (r: Self)
        ensures
            r == *self,
    {
        KeyPair { secret_key: self.secret_key.clone(), public_key: self.public_key }
    }
}

impl KeyPair {
    /// The text that stands for this pair in diagnostics, which never shows
    /// the secret key: `KeyPair { public_key: ` and the public key's text (see
    /// [`PublicKey::debug_text`]), then `, secret_key: "[REDACTED]" }`.
    pub fn debug_text(&self) -> (s: String)
        ensures
            s@ == "KeyPair { public_key: "@ + "PublicKey("@ + hex_encoding(self.public()@).take(16)
                + ")"@ + ", secret_key: \"[REDACTED]\" }"@,
    {
        let mut s = String::from_str("KeyPair { public_key: ");
        let p = self.public_key.debug_text();
        s.append(p.as_str());
        s.append(", secret_key: \"[REDACTED]\" }");
        s
    }

    /// Whether the public key is the one of the secret key.
    pub closed spec fn wf(&self) -> bool {
        self.public_key@ == x25519_public(self.secret_key@)
    }

    /// The secret key.
    pub closed spec fn secret(&self) -> SecretKey {
        self.secret_key
    }

    /// The public key.
    pub closed spec fn public(&self) -> PublicKey {
        self.public_key
    }

    /// A new random key pair.
    pub fn generate() -> (kp: Self)
        ensures
            kp.wf(),
            kp.public()@ == x25519_public(kp.secret()@),
            kp.secret()@.len() == 32,
    {
        let secret_key = SecretKey::random();
        let public_key = PublicKey::from_secret(&secret_key);
        KeyPair { secret_key, public_key }
    }

    /// The key pair of a secret key.
    pub fn from_secret_key(secret_key: SecretKey) -> (kp: Self)
        ensures
            kp.wf(),
            kp.secret() == secret_key,
            kp.public()@ == x25519_public(secret_key@),
    {
        let public_key = PublicKey::from_secret(&secret_key);
        KeyPair { secret_key, public_key }
    }

    /// The secret key.
    pub fn secret_key(&self) -> (k: &SecretKey)
        ensures
            *k == self.secret(),
    {
        &self.secret_key
    }

    /// The public key.
    pub fn public_key(&self) -> (k: &PublicKey)
        ensures
            *k == self.public(),
    {
        &self.public_key
    }

    /// The shared secret of this pair's secret key and a peer's public key.
    /// Two well-formed pairs that derive with each other's public keys get the
    /// same secret.
    pub fn derive_shared_secret(&self, peer_public: &PublicKey) -> (s: SharedSecret)
        ensures
            s@ == x25519_shared(self.secret()@, peer_public@),
            forall|other: KeyPair|
                other.wf() && #[trigger] other.public() == *peer_public && self.wf() ==> s@
                    == x25519_shared(other.secret()@, self.public()@),
    {
        let s = self.secret_key.derive_shared_secret(peer_public);
        proof {
            assert forall|other: KeyPair|
                other.wf() && #[trigger] other.public() == *peer_public && self.wf() implies s@
                    == x25519_shared(other.secret()@, self.public()@) by {
                assert(other.secret_key.bytes@.len() == 32);
                assert(peer_public@ == x25519_public(other.secret()@));
            }
        }
        s
    }
}

/// A key derived for encryption.
pub struct DerivedKey {
    key: [u8; 32],
}

impl View for DerivedKey {
    type V = Seq<u8>;

    closed spec fn view(&self) -> Seq<u8> {
        self.key@
    }
}

impl DerivedKey {
    /// The key derived from a shared secret and a salt: the SHA-256 digest of
    /// the secret's bytes followed by the salt.
    pub fn from_shared_secret(shared_secret: &SharedSecret, salt: &[u8]) -> (k: Self)
        ensures
            k@ == sha256(shared_secret@ + salt@),
    {
        let mut data: Vec<u8> = Vec::new();
        let mut i: usize = 0;
        let ss = shared_secret.as_bytes();
        while i < 32
            invariant
                i <= 32,
                ss@.len() == 32,
                data@ == ss@.subrange(0, i as int),
            decreases 32 - i,
        {
            data.push(ss[i]);
            i = i + 1;
            proof {
                assert(data@ =~= ss@.subrange(0, i as int));
            }
        }
        let mut j: usize = 0;
        while j < salt.len()
            invariant
                j <= salt@.len(),
                ss@.len() == 32,
                data@ == ss@ + salt@.subrange(0, j as int),
            decreases salt@.len() - j,
        {
            data.push(salt[j]);
            j = j + 1;
            proof {
                assert(data@ =~= ss@ + salt@.subrange(0, j as int));
            }
        }
        proof {
            assert(data@ =~= shared_secret@ + salt@);
        }
        DerivedKey { key: sha256_digest(data.as_slice()) }
    }

    /// An encryption context with this key.
    pub fn to_encryption_context(&self) -> (c: EncryptionContext)
        ensures
            c@ == self@,
    {
        EncryptionContext::new(self.key)
    }

    /// The bytes of this key.
    pub fn as_bytes(&self) -> (b: &[u8; 32])
        ensures
            b@ == self@,
    {
        &self.key
    }
}

/// A context for encryption and decryption under one key.
pub struct EncryptionContext {
    key: [u8; 32],
}

impl Clone for EncryptionContext {
    fn clone(&self) -> (r: Self)
        ensures
            r == *self,
    {
        EncryptionContext { key: self.key }
    }
}

impl View for EncryptionContext {
    type V = Seq<u8>;

    closed spec fn view(&self) -> Seq<u8> {
        self.key@
    }
}

impl EncryptionContext {
    /// A context with the given key.
    pub fn new(key: [u8; 32]) -> (c: Self)
        ensures
            c@ == key@,
    {
        EncryptionContext { key }
    }

    /// A context with the key of a derived key.
    pub fn from_derived_key(key: &DerivedKey) -> (c: Self)
        ensures
            c@ == key@,
    {
        Self::new(*key.as_bytes())
    }

    /// Encrypts with the given nonce. It fails with a crypto error "Encryption
    /// failed" exactly when the plaintext is too long for the cipher.
    pub fn encrypt(&self, nonce: [u8; 12], plaintext: &[u8]) -> (r: Result<Vec<u8>, Error>)
        ensures
            aead_length_ok(plaintext@.len()) ==> (r matches Ok(c) && c@ == chacha20poly1305_seal(
                self@,
                nonce@,
                plaintext@,
            ) && c@.len() == plaintext@.len() + 16),
            !aead_length_ok(plaintext@.len()) ==> (r matches Err(Error::Crypto(m)) && m@
                == "Encryption failed"@),
    {
        match aead_encrypt(&self.key, &nonce, plaintext) {
            Ok(c) => Ok(c),
            Err(_) => Err(Error::Crypto(String::from_str("Encryption failed"))),
        }
    }

    /// Decrypts with the given nonce. A ciphertext shorter than the 16-byte tag
    /// fails; a plaintext returned is 16 bytes shorter than the ciphertext, of
    /// an acceptable length, and seals back to the ciphertext; a ciphertext
    /// sealed under this key and nonce decrypts to its plaintext; any failure
    /// is a crypto error "Decryption failed".
    pub fn decrypt(&self, nonce: [u8; 12], ciphertext: &[u8]) -> (r: Result<Vec<u8>, Error>)
        ensures
            ciphertext@.len() < 16 ==> (r matches Err(Error::Crypto(m)) && m@ == "Decryption failed"@),
            r matches Ok(p) ==> chacha20poly1305_seal(self@, nonce@, p@) == ciphertext@
                && aead_length_ok(p@.len()) && p@.len() + 16 == ciphertext@.len(),
            r is Err ==> (r matches Err(Error::Crypto(m)) && m@ == "Decryption failed"@),
            forall|p: Seq<u8>|
                #[trigger] chacha20poly1305_seal(self@, nonce@, p) == ciphertext@ && aead_length_ok(
                    p.len(),
                ) ==> (r matches Ok(q) && q@ == p),
    {
        match aead_decrypt(&self.key, &nonce, ciphertext) {
            Ok(p) => Ok(p),
            Err(_) => Err(Error::Crypto(String::from_str("Decryption failed"))),
        }
    }

    /// A random nonce.
    pub fn generate_nonce() -> (n: [u8; 12]) {
        crate::entropy::random_12()
    }
}


/// The number that bytes stand for, least significant byte first.
pub open spec fn le_value(s: Seq<u8>) -> nat
    decreases s.len(),
{
    if s.len() == 0 {
        0
    } else {
        le_value(s.drop_last()) + pow256((s.len() - 1) as nat) * (s.last() as nat)
    }
}

/// `2^255`.
pub open spec fn two_pow_255() -> nat {
    128 * pow256(31)
}

/// The prime `2^255 - 19` of the curve's field.
pub open spec fn field_prime() -> nat {
    (two_pow_255() - 19) as nat
}

/// The byte `i` of the prime, least significant first.
pub open spec fn prime_byte(i: int) -> u8 {
    if i == 0 {
        0xedu8
    } else if i == 31 {
        0x7fu8
    } else {
        0xffu8
    }
}

proof fn lemma_le_value_head(s: Seq<u8>)
    requires
        s.len() >= 1,
    ensures
        le_value(s) == s[0] + 256 * le_value(s.skip(1)),
    decreases s.len(),
{
    if s.len() == 1 {
        assert(s.drop_last().len() == 0);
        assert(s.skip(1).len() == 0);
        assert(pow256(0) == 1);
        assert(le_value(s) == le_value(s.drop_last()) + pow256(0) * (s.last() as nat));
    } else {
        let dl = s.drop_last();
        lemma_le_value_head(dl);
        assert(s.skip(1).drop_last() =~= dl.skip(1));
        assert(s.skip(1).last() == s.last());
        assert(dl[0] == s[0]);
        let n = s.len();
        assert(pow256((n - 1) as nat) == 256 * pow256((n - 2) as nat));
        let a = le_value(dl.skip(1)) as int;
        let q = pow256((n - 2) as nat) as int;
        let l = s.last() as int;
        assert(le_value(s.skip(1)) == a + q * l);
        assert(le_value(s) == le_value(dl) + (256 * q) * l);
        assert(256 * (a + q * l) == 256 * a + (256 * q) * l) by (nonlinear_arith);
    }
}

proof fn lemma_le_value_ones(n: nat)
    ensures
        le_value(Seq::new(n, |i: int| 255u8)) + 1 == pow256(n),
    decreases n,
{
    if n > 0 {
        lemma_le_value_ones((n - 1) as nat);
        assert(Seq::new(n, |i: int| 255u8).drop_last() =~= Seq::new((n - 1) as nat, |i: int| 255u8));
        let p = pow256((n - 1) as nat) as int;
        assert(p - 1 + p * 255 + 1 == 256 * p) by (nonlinear_arith);
    }
}

proof fn lemma_prime_bytes()
    ensures
        le_value(Seq::new(32, |i: int| prime_byte(i))) == field_prime(),
{
    let s = Seq::new(32, |i: int| prime_byte(i));
    let t = s.drop_last();
    lemma_le_value_head(t);
    assert(t.skip(1) =~= Seq::new(30, |i: int| 255u8));
    lemma_le_value_ones(30);
    assert(pow256(31) == 256 * pow256(30));
    assert(le_value(t) + 19 == pow256(31));
    assert(s.last() == 0x7fu8);
}

proof fn lemma_le_value_bound(s: Seq<u8>)
    ensures
        le_value(s) < pow256(s.len()),
    decreases s.len(),
{
    if s.len() > 0 {
        lemma_le_value_bound(s.drop_last());
        let v = le_value(s.drop_last()) as int;
        let p = pow256(s.drop_last().len()) as int;
        let l = s.last() as int;
        assert(p * l <= p * 255) by (nonlinear_arith)
            requires
                0 <= p,
                0 <= l < 256,
        ;
        assert(v + p * l < 256 * p);
    }
}

proof fn lemma_le_value_step(s: Seq<u8>, i: int)
    requires
        0 <= i < s.len(),
    ensures
        le_value(s.take(i + 1)) == le_value(s.take(i)) + pow256(i as nat) * s[i],
{
    assert(s.take(i + 1).drop_last() =~= s.take(i));
}

/// Two byte strings of one length with the same value are the same.
proof fn lemma_le_value_injective(x: Seq<u8>, y: Seq<u8>)
    requires
        x.len() == y.len(),
        le_value(x) == le_value(y),
    ensures
        x == y,
    decreases x.len(),
{
    if x.len() > 0 {
        let n = (x.len() - 1) as nat;
        lemma_le_value_bound(x.drop_last());
        lemma_le_value_bound(y.drop_last());
        let p = pow256(n) as int;
        lemma_pow256_positive(n);
        let vx = le_value(x.drop_last()) as int;
        let vy = le_value(y.drop_last()) as int;
        let lx = x.last() as int;
        let ly = y.last() as int;
        assert(lx == ly && vx == vy) by (nonlinear_arith)
            requires
                vx + p * lx == vy + p * ly,
                0 <= vx < p,
                0 <= vy < p,
                p > 0,
        {
            if lx < ly {
                assert(p * ly >= p * lx + p);
            } else if ly < lx {
                assert(p * lx >= p * ly + p);
            }
        }
        lemma_le_value_injective(x.drop_last(), y.drop_last());
        assert(x =~= x.drop_last().push(x.last()));
        assert(y =~= y.drop_last().push(y.last()));
    }
}

/// `256` to the power `n`.
pub open spec fn pow256(n: nat) -> nat
    decreases n,
{
    if n == 0 {
        1
    } else {
        256 * pow256((n - 1) as nat)
    }
}

/// The number that bytes stand for, most significant byte first.
pub open spec fn be_value(s: Seq<u8>) -> nat
    decreases s.len(),
{
    if s.len() == 0 {
        0
    } else {
        be_value(s.drop_last()) * 256 + s.last() as nat
    }
}

proof fn lemma_pow256_positive(n: nat)
    ensures
        pow256(n) >= 1,
    decreases n,
{
    if n > 0 {
        lemma_pow256_positive((n - 1) as nat);
    }
}

proof fn lemma_shift_add(x: int, p: int, y: int, z: int)
    ensures
        (x * p + y) * 256 + z == x * (256 * p) + (y * 256 + z),
{
    assert((x * p + y) * 256 + z == x * (256 * p) + (y * 256 + z)) by (nonlinear_arith);
}

proof fn lemma_be_value_concat(a: Seq<u8>, b: Seq<u8>)
    ensures
        be_value(a + b) == be_value(a) * pow256(b.len()) + be_value(b),
    decreases b.len(),
{
    if b.len() == 0 {
        assert(a + b =~= a);
        assert(pow256(b.len()) == 1);
        assert(be_value(b) == 0);
        assert(be_value(a) * 1 == be_value(a));
    } else {
        let b2 = b.drop_last();
        lemma_be_value_concat(a, b2);
        assert((a + b).drop_last() =~= a + b2);
        let x = be_value(a) as int;
        let p = pow256(b2.len()) as int;
        let y = be_value(b2) as int;
        let z = b.last() as int;
        assert(be_value(a + b) == be_value(a + b2) * 256 + z);
        assert(be_value(b) == y * 256 + z);
        assert(pow256(b.len()) == 256 * p);
        lemma_shift_add(x, p, y, z);
    }
}

proof fn lemma_be_value_bound(s: Seq<u8>)
    ensures
        be_value(s) < pow256(s.len()),
    decreases s.len(),
{
    if s.len() > 0 {
        lemma_be_value_bound(s.drop_last());
        let v = be_value(s.drop_last());
        let p = pow256(s.drop_last().len());
        assert(v * 256 + s.last() < 256 * p) by (nonlinear_arith)
            requires
                v < p,
                s.last() < 256,
        ;
    }
}

proof fn lemma_be_value_single(x: u8)
    ensures
        be_value(seq![x]) == x,
{
    assert(seq![x].drop_last() =~= Seq::<u8>::empty());
    assert(be_value(Seq::<u8>::empty()) == 0);
}

proof fn lemma_pow256_12()
    ensures
        pow256(12) == 0x1_0000_0000_0000_0000_0000_0000,
{
    reveal_with_fuel(pow256, 13);
}

proof fn lemma_be_value_zeros(n: nat)
    ensures
        be_value(Seq::new(n, |i: int| 0u8)) == 0,
    decreases n,
{
    if n > 0 {
        lemma_be_value_zeros((n - 1) as nat);
        assert(Seq::new(n, |i: int| 0u8).drop_last() =~= Seq::new((n - 1) as nat, |i: int| 0u8));
    }
}

proof fn lemma_be_value_ones(n: nat)
    ensures
        be_value(Seq::new(n, |i: int| 255u8)) + 1 == pow256(n),
    decreases n,
{
    if n > 0 {
        lemma_be_value_ones((n - 1) as nat);
        assert(Seq::new(n, |i: int| 255u8).drop_last() =~= Seq::new((n - 1) as nat, |i: int| 255u8));
    }
}

impl EncryptionContext {
    /// Increments a nonce read as a 96-bit big-endian number, wrapping to zero
    /// after the largest value.
    pub fn increment_nonce(nonce: &mut [u8; 12])
        ensures
            be_value(final(nonce)@) == (be_value(old(nonce)@) + 1) % pow256(12),
    {
        let ghost orig = nonce@;
        assert(orig.len() == 12);
        let mut i: usize = 12;
        let mut done = false;
        let ghost mut pos: int = -1;
        while i > 0 && !done
            invariant
                i <= 12,
                nonce@.len() == 12,
                orig.len() == 12,
                !done ==> forall|k: int|
                    #![trigger nonce@[k]]
                    #![trigger orig[k]]
                    0 <= k < i ==> nonce@[k] == orig[k],
                !done ==> forall|k: int|
                    #![trigger nonce@[k]]
                    #![trigger orig[k]]
                    i <= k < 12 ==> nonce@[k] == 0 && orig[k] == 255,
                done ==> 0 <= pos < 12 && orig[pos] < 255 && nonce@[pos] == orig[pos] + 1 && (
                forall|k: int|
                    #![trigger nonce@[k]]
                    #![trigger orig[k]]
                    0 <= k < pos ==> nonce@[k] == orig[k]) && (forall|k: int|
                    #![trigger nonce@[k]]
                    #![trigger orig[k]]
                    pos < k < 12 ==> nonce@[k] == 0 && orig[k] == 255),
            decreases i,
        {
            let j = i - 1;
            if nonce[j] < 255 {
                nonce[j] = nonce[j] + 1;
                done = true;
                proof {
                    pos = j as int;
                }
            } else {
                nonce[j] = 0;
            }
            i = j;
        }
        proof {
            assert(nonce@.len() == 12 && orig.len() == 12);
            if done {
                let j = pos;
                let head = orig.subrange(0, j);
                let m = (11 - j) as nat;
                assert(orig =~= head + seq![orig[j]] + Seq::new(m, |i: int| 255u8));
                assert(nonce@ =~= head + seq![(orig[j] + 1) as u8] + Seq::new(m, |i: int| 0u8));
                lemma_be_value_concat(head + seq![orig[j]], Seq::new(m, |i: int| 255u8));
                lemma_be_value_concat(head + seq![(orig[j] + 1) as u8], Seq::new(m, |i: int| 0u8));
                lemma_be_value_concat(head, seq![orig[j]]);
                lemma_be_value_concat(head, seq![(orig[j] + 1) as u8]);
                lemma_be_value_ones(m);
                lemma_be_value_zeros(m);
                lemma_be_value_single(orig[j]);
                lemma_be_value_single((orig[j] + 1) as u8);
                lemma_pow256_12();
                lemma_be_value_bound(nonce@);
                let h = be_value(head);
                let p = pow256(m);
                let x = orig[j] as int;
                assert(pow256(1) == 256) by {
                    reveal_with_fuel(pow256, 2);
                }
                assert((h * 256 + x) * p + (p - 1) + 1 == (h * 256 + x + 1) * p + 0)
                    by (nonlinear_arith);
            } else {
                assert(orig =~= Seq::new(12, |i: int| 255u8));
                assert(nonce@ =~= Seq::new(12, |i: int| 0u8));
                lemma_be_value_ones(12);
                lemma_be_value_zeros(12);
                lemma_pow256_12();
            }
        }
    }
}

} // verus!
