//! A secure session: the derived 32-byte key together with the
//! selected authenticated-encryption scheme. A session is immutable
//! after construction — there is no re-keying — and performs no
//! internal mutation, so concurrent readers need no lock.

use vstd::prelude::*;
use crate::crypto::{
    CryptoError, MAX_PLAINTEXT_LEN, spec_aead_decrypt, spec_aead_encrypt,
};

verus! {

/// The symmetric ciphers a session may select. Only
/// XChaCha20-Poly1305 is implemented; selecting the other yields an
/// explicit error at use, never a panic.
#[derive(Clone, Copy, Debug, PartialEq, Eq, Structural)]
pub enum CipherType {
    AES256GCM,
    XChaCha20Poly1305,
}

/// One connection's session: the shared key and the cipher choice.
#[derive(Clone, Debug)]
pub struct Session {
    pub key: Vec<u8>,
    pub cipher: CipherType,
}

impl Session {
    /// A session key is exactly 32 bytes.
    pub open spec fn wf(&self) -> bool {
        self.key@.len() == 32
    }

    /// Builds a session over the given key with the default cipher.
    pub fn new(key: Vec<u8>) -> (s: Session)
        requires
            key@.len() == 32,
        ensures
            s.wf(),
            s.key@ == key@,
            s.cipher == CipherType::XChaCha20Poly1305,
    {
        Session { key, cipher: CipherType::XChaCha20Poly1305 }
    }

    /// Encrypts one plaintext under the session's cipher with a
    /// fresh random nonce; returns ciphertext and nonce.
    pub fn encrypt(&self, plaintext: &Vec<u8>) -> (r: Result<(Vec<u8>, Vec<u8>), CryptoError>)
        requires
            self.wf(),
            plaintext@.len() <= MAX_PLAINTEXT_LEN,
        ensures
            (self.cipher == CipherType::AES256GCM ==> (r matches Err(c) && c
                == CryptoError::UnsupportedCipher)),
            (self.cipher == CipherType::XChaCha20Poly1305 ==> (r matches Ok(p)
                && p.1@.len() == 24 && p.0@ == spec_aead_encrypt(self.key@, p.1@, plaintext@)
                && p.0@.len() == plaintext@.len() + 16 && spec_aead_decrypt(self.key@, p.1@,
                p.0@) == Some(plaintext@))),
    {
        match self.cipher {
            CipherType::AES256GCM => Err(CryptoError::UnsupportedCipher),
            CipherType::XChaCha20Poly1305 => Ok(
                crate::crypto::encrypt_message(&self.key, plaintext),
            ),
        }
    }

    /// Decrypts one ciphertext under the session's cipher; fails —
    /// never panics — on a wrong-length nonce or a tag that does not
    /// verify.
    pub fn decrypt(&self, ciphertext: &Vec<u8>, nonce: &Vec<u8>) -> (r: Result<
        Vec<u8>,
        CryptoError,
    >)
        requires
            self.wf(),
        ensures
            (self.cipher == CipherType::AES256GCM ==> (r matches Err(c) && c
                == CryptoError::UnsupportedCipher)),
            (self.cipher == CipherType::XChaCha20Poly1305 && nonce@.len() != 24 ==> (r matches
                Err(c) && c == CryptoError::InvalidNonce)),
            (self.cipher == CipherType::XChaCha20Poly1305 && nonce@.len() == 24 ==> (match
                spec_aead_decrypt(self.key@, nonce@, ciphertext@) {
                Some(p) => (r matches Ok(pt) && pt@ == p),
                None => (r matches Err(c) && c == CryptoError::AuthenticationFailed),
            })),
    {
        match self.cipher {
            CipherType::AES256GCM => Err(CryptoError::UnsupportedCipher),
            CipherType::XChaCha20Poly1305 => crate::crypto::decrypt_message(&self.key,
                ciphertext, nonce),
        }
    }
}

} // verus!
