//! Cryptographic primitives of the channel: ephemeral X25519 key
//! pairs, Diffie-Hellman session-key derivation hashed with SHA-256,
//! XChaCha20-Poly1305 authenticated encryption, and the base64 text
//! form of public keys.
//!
//! The outside primitives are reached through trusted wrappers whose
//! contracts name their results; everything around them is verified.

use vstd::prelude::*;
use base64::Engine;
use chacha20poly1305::aead::Aead;
use chacha20poly1305::aead::KeyInit;
use rand::RngCore;
use sha2::Digest;

verus! {

#[derive(Clone, Copy, Debug, PartialEq, Eq, Structural)]
pub enum CryptoError {
    /// The selected cipher is declared but not implemented.
    UnsupportedCipher,
    /// The authentication tag did not verify: the ciphertext was
    /// tampered with, or key or nonce do not match.
    AuthenticationFailed,
    /// The nonce is not exactly 24 bytes long.
    InvalidNonce,
    /// The text is not valid base64.
    InvalidKeyEncoding,
    /// The decoded key is not exactly 32 bytes long.
    InvalidKeyLength,
}

/// Plaintexts longer than this (1 MiB) are refused; the bound keeps
/// every encrypted message well inside one wire frame.
pub const MAX_PLAINTEXT_LEN: usize = 0x0010_0000;

/// The X25519 function on 32-byte strings: scalar multiplication of
/// the decoded point by the clamped scalar.
pub uninterp spec fn spec_x25519(scalar: Seq<u8>, point: Seq<u8>) -> Seq<u8>;

/// The SHA-256 digest of a byte string.
pub uninterp spec fn spec_sha256(data: Seq<u8>) -> Seq<u8>;

/// The XChaCha20-Poly1305 ciphertext (tag appended) for a key, nonce
/// and plaintext.
pub uninterp spec fn spec_aead_encrypt(key: Seq<u8>, nonce: Seq<u8>, plaintext: Seq<u8>) -> Seq<
    u8>;

/// The XChaCha20-Poly1305 decryption outcome for a key, nonce and
/// ciphertext: the plaintext when the tag verifies, nothing
/// otherwise.
pub uninterp spec fn spec_aead_decrypt(key: Seq<u8>, nonce: Seq<u8>, ciphertext: Seq<u8>)
    -> Option<Seq<u8>>;

/// The standard base64 rendering (with padding) of a byte string.
pub uninterp spec fn spec_base64_encode(data: Seq<u8>) -> Seq<u8>;

/// The strict standard base64 parse of a text: the decoded bytes, or
/// nothing when the text is not valid base64.
pub uninterp spec fn spec_base64_decode(text: Seq<u8>) -> Option<Seq<u8>>;

/// The X25519 base point: 9 followed by 31 zero bytes.
pub open spec fn spec_basepoint() -> Seq<u8> {
    seq![9u8, 0u8, 0u8, 0u8, 0u8, 0u8, 0u8, 0u8, 0u8, 0u8, 0u8, 0u8, 0u8, 0u8, 0u8, 0u8, 0u8,
        0u8, 0u8, 0u8, 0u8, 0u8, 0u8, 0u8, 0u8, 0u8, 0u8, 0u8, 0u8, 0u8, 0u8, 0u8]
}

/// The session key two peers share: the SHA-256 hash of their
/// Diffie-Hellman shared point.
pub open spec fn spec_session_key(secret: Seq<u8>, peer_public: Seq<u8>) -> Seq<u8> {
    spec_sha256(spec_x25519(secret, peer_public))
}

/// Relies on rand's `OsRng::fill_bytes`: `n` bytes from the
/// operating system's secure random source. Nothing can be promised
/// of random bytes beyond their count.
#[verifier::external_body]
fn random_bytes(n: usize) -> (r: Vec<u8>)
    ensures
        r@.len() == n,
{
    let mut buf = vec![0u8; n];
    rand::rngs::OsRng.fill_bytes(&mut buf);
    buf
}

/// Relies on x25519_dalek's `x25519`: the RFC 7748 function on plain
/// 32-byte strings. The second clause is Diffie-Hellman
/// commutativity: when `u` is the public key of some scalar, both
/// parties compute the same shared point.
#[verifier::external_body]
fn x25519_mul(k: &Vec<u8>, u: &Vec<u8>) -> (r: Vec<u8>)
    requires
        k@.len() == 32,
        u@.len() == 32,
    ensures
        r@.len() == 32,
        r@ == spec_x25519(k@, u@),
        forall|k2: Seq<u8>| k2.len() == 32 && u@ == #[trigger] spec_x25519(k2, spec_basepoint())
            ==> r@ == spec_x25519(k2, spec_x25519(k@, spec_basepoint())),
{
    let mut ka = [0u8; 32];
    ka.copy_from_slice(k.as_slice());
    let mut ua = [0u8; 32];
    ua.copy_from_slice(u.as_slice());
    x25519_dalek::x25519(ka, ua).to_vec()
}

/// Relies on sha2's `Sha256::digest`: the 32-byte SHA-256 hash of
/// the input.
#[verifier::external_body]
fn sha256_digest(data: &Vec<u8>) -> (r: Vec<u8>)
    ensures
        r@.len() == 32,
        r@ == spec_sha256(data@),
{
    sha2::Sha256::digest(data.as_slice()).to_vec()
}

/// Relies on chacha20poly1305's `XChaCha20Poly1305::encrypt`: the
/// ciphertext is the sealed plaintext with the 16-byte tag appended,
/// and decrypting it under the same key and nonce returns the
/// plaintext. Encryption cannot fail for plaintexts under the
/// cipher's enormous length bound, far above `MAX_PLAINTEXT_LEN`.
#[verifier::external_body]
fn aead_encrypt(key: &Vec<u8>, nonce: &Vec<u8>, plaintext: &Vec<u8>) -> (r: Vec<u8>)
    requires
        key@.len() == 32,
        nonce@.len() == 24,
        plaintext@.len() <= MAX_PLAINTEXT_LEN,
    ensures
        r@ == spec_aead_encrypt(key@, nonce@, plaintext@),
        r@.len() == plaintext@.len() + 16,
        spec_aead_decrypt(key@, nonce@, r@) == Some(plaintext@),
{
    let cipher = chacha20poly1305::XChaCha20Poly1305::new(
        chacha20poly1305::Key::from_slice(key.as_slice()),
    );
    let nonce_arr = chacha20poly1305::XNonce::from_slice(nonce.as_slice());
    cipher.encrypt(nonce_arr, plaintext.as_slice()).unwrap()
}

/// Relies on chacha20poly1305's `XChaCha20Poly1305::decrypt`: the
/// plaintext when the authentication tag verifies, an error
/// otherwise.
#[verifier::external_body]
fn aead_decrypt(key: &Vec<u8>, nonce: &Vec<u8>, ciphertext: &Vec<u8>) -> (r: Option<Vec<u8>>)
    requires
        key@.len() == 32,
        nonce@.len() == 24,
    ensures
        (r matches Some(p) ==> spec_aead_decrypt(key@, nonce@, ciphertext@) == Some(p@)),
        (r is None ==> spec_aead_decrypt(key@, nonce@, ciphertext@) is None),
{
    let cipher = chacha20poly1305::XChaCha20Poly1305::new(
        chacha20poly1305::Key::from_slice(key.as_slice()),
    );
    let nonce_arr = chacha20poly1305::XNonce::from_slice(nonce.as_slice());
    match cipher.decrypt(nonce_arr, ciphertext.as_slice()) {
        Ok(p) => Some(p),
        Err(_) => None,
    }
}

/// Relies on base64's `Engine::encode` with the standard alphabet
/// and padding: four output bytes for every three input bytes, all
/// of them alphanumeric or `+`, `/`, `=`, and decoding the output
/// gives the input back.
#[verifier::external_body]
fn b64_encode(data: &Vec<u8>) -> (r: Vec<u8>)
    ensures
        r@ == spec_base64_encode(data@),
        r@.len() == 4 * ((data@.len() + 2) / 3),
        spec_base64_decode(r@) == Some(data@),
        forall|k: int| 0 <= k < r@.len() ==> crate::codec::spec_plain_byte(#[trigger] r@[k]),
{
    base64::engine::general_purpose::STANDARD.encode(data.as_slice()).into_bytes()
}

/// Renders bytes as standard base64 text.
pub fn encode_base64(data: &Vec<u8>) -> (r: Vec<u8>)
    ensures
        r@ == spec_base64_encode(data@),
        r@.len() == 4 * ((data@.len() + 2) / 3),
        spec_base64_decode(r@) == Some(data@),
        forall|k: int| 0 <= k < r@.len() ==> crate::codec::spec_plain_byte(#[trigger] r@[k]),
{
    b64_encode(data)
}

/// Parses standard base64 text back into bytes.
pub fn decode_base64(text: &Vec<u8>) -> (r: Option<Vec<u8>>)
    ensures
        (r matches Some(d) ==> spec_base64_decode(text@) == Some(d@)),
        (r is None ==> spec_base64_decode(text@) is None),
{
    b64_decode(text)
}

/// Relies on base64's `Engine::decode` with the standard alphabet:
/// the decoded bytes, or an error on text that is not valid base64.
#[verifier::external_body]
fn b64_decode(text: &Vec<u8>) -> (r: Option<Vec<u8>>)
    ensures
        (r matches Some(d) ==> spec_base64_decode(text@) == Some(d@)),
        (r is None ==> spec_base64_decode(text@) is None),
{
    match base64::engine::general_purpose::STANDARD.decode(text.as_slice()) {
        Ok(v) => Some(v),
        Err(_) => None,
    }
}

/// An ephemeral key pair: a fresh 32-byte secret scalar and its
/// X25519 public point. Created once per connection attempt and
/// consumed by the key derivation.
pub struct KeyPair {
    pub secret: Vec<u8>,
    pub public: Vec<u8>,
}

impl KeyPair {
    /// The public half is exactly the X25519 image of the secret.
    pub open spec fn wf(&self) -> bool {
        &&& self.secret@.len() == 32
        &&& self.public@.len() == 32
        &&& self.public@ == spec_x25519(self.secret@, spec_basepoint())
    }
}

/// The X25519 base point as bytes.
fn basepoint() -> (v: Vec<u8>)
    ensures
        v@ == spec_basepoint(),
{
    let v: Vec<u8> = vec![9u8, 0u8, 0u8, 0u8, 0u8, 0u8, 0u8, 0u8, 0u8, 0u8, 0u8, 0u8, 0u8, 0u8,
        0u8, 0u8, 0u8, 0u8, 0u8, 0u8, 0u8, 0u8, 0u8, 0u8, 0u8, 0u8, 0u8, 0u8, 0u8, 0u8, 0u8,
        0u8];
    proof { assert(v@ =~= spec_basepoint()); }
    v
}

/// Builds the key pair whose secret scalar is the given 32 bytes.
pub fn keypair_from_secret(secret: Vec<u8>) -> (kp: KeyPair)
    requires
        secret@.len() == 32,
    ensures
        kp.wf(),
        kp.secret@ == secret@,
{
    let bp = basepoint();
    let public = x25519_mul(&secret, &bp);
    KeyPair { secret, public }
}

/// Generates a fresh ephemeral key pair from the operating system's
/// secure random source.
pub fn generate_keypair() -> (kp: KeyPair)
    ensures
        kp.wf(),
{
    let secret = random_bytes(32);
    keypair_from_secret(secret)
}

/// Derives the 32-byte session key from one side's secret scalar and
/// the other side's public point: SHA-256 of the Diffie-Hellman
/// shared point.
///
/// The final clause is the symmetry of the exchange: whenever the
/// peer's public key is the image of some scalar, the peer derives
/// this same key from its own secret and this side's public key.
pub fn derive_shared_key(secret: Vec<u8>, peer_public: &Vec<u8>) -> (key: Vec<u8>)
    requires
        secret@.len() == 32,
        peer_public@.len() == 32,
    ensures
        key@.len() == 32,
        key@ == spec_session_key(secret@, peer_public@),
        forall|sk2: Seq<u8>| sk2.len() == 32 && peer_public@ == #[trigger] spec_x25519(sk2,
            spec_basepoint()) ==> key@ == spec_session_key(sk2, spec_x25519(secret@,
            spec_basepoint())),
{
    let shared = x25519_mul(&secret, peer_public);
    sha256_digest(&shared)
}

/// Encrypts one plaintext under the session key with a fresh random
/// 24-byte nonce; returns the ciphertext (tag appended) and the
/// nonce.
pub fn encrypt_message(key: &Vec<u8>, plaintext: &Vec<u8>) -> (r: (Vec<u8>, Vec<u8>))
    requires
        key@.len() == 32,
        plaintext@.len() <= MAX_PLAINTEXT_LEN,
    ensures
        r.1@.len() == 24,
        r.0@ == spec_aead_encrypt(key@, r.1@, plaintext@),
        r.0@.len() == plaintext@.len() + 16,
        spec_aead_decrypt(key@, r.1@, r.0@) == Some(plaintext@),
{
    let nonce = random_bytes(24);
    let ct = aead_encrypt(key, &nonce, plaintext);
    (ct, nonce)
}

/// Decrypts one ciphertext under the session key and nonce; fails —
/// never panics — when the nonce has the wrong length or the
/// authentication tag does not verify.
pub fn decrypt_message(key: &Vec<u8>, ciphertext: &Vec<u8>, nonce: &Vec<u8>) -> (r: Result<
    Vec<u8>,
    CryptoError,
>)
    requires
        key@.len() == 32,
    ensures
        (nonce@.len() != 24 ==> (r matches Err(c) && c == CryptoError::InvalidNonce)),
        (nonce@.len() == 24 ==> (match spec_aead_decrypt(key@, nonce@, ciphertext@) {
            Some(p) => (r matches Ok(pt) && pt@ == p),
            None => (r matches Err(c) && c == CryptoError::AuthenticationFailed),
        })),
{
    if nonce.len() != 24 {
        return Err(CryptoError::InvalidNonce);
    }
    match aead_decrypt(key, nonce, ciphertext) {
        Some(p) => Ok(p),
        None => Err(CryptoError::AuthenticationFailed),
    }
}

/// Renders a public key as base64 text for the handshake message.
pub fn pubkey_to_b64(public: &Vec<u8>) -> (r: Vec<u8>)
    ensures
        r@ == spec_base64_encode(public@),
        spec_base64_decode(r@) == Some(public@),
{
    b64_encode(public)
}

/// Parses base64 text into a 32-byte public key; rejects malformed
/// text and any decoded length other than 32, never truncating or
/// padding.
pub fn pubkey_from_b64(text: &Vec<u8>) -> (r: Result<Vec<u8>, CryptoError>)
    ensures
        (r matches Ok(pk) ==> spec_base64_decode(text@) == Some(pk@) && pk@.len() == 32),
        (match spec_base64_decode(text@) {
            Some(d) => {
                if d.len() == 32 {
                    (r matches Ok(pk) && pk@ == d)
                } else {
                    (r matches Err(c) && c == CryptoError::InvalidKeyLength)
                }
            }
            None => (r matches Err(c) && c == CryptoError::InvalidKeyEncoding),
        }),
{
    match b64_decode(text) {
        Some(d) => {
            if d.len() == 32 {
                Ok(d)
            } else {
                Err(CryptoError::InvalidKeyLength)
            }
        }
        None => Err(CryptoError::InvalidKeyEncoding),
    }
}

} // verus!
