//! The one-round-trip handshake that turns a raw byte stream into an
//! established session.
//!
//! The initiator walks SendHandshake → AwaitHandshake → Established:
//! it sends `handshake_message` first and applies `accept_handshake`
//! to the reply. The responder walks AwaitHandshake → SendHandshake
//! → Established: it applies `accept_handshake` to the first frame
//! and then sends its own `handshake_message`. A first message of
//! any other kind, or a malformed key, aborts the attempt; there is
//! no retry, and any syntactically valid key is accepted — the
//! design verifies no identity.

use vstd::prelude::*;
use crate::crypto::{
    KeyPair, spec_base64_decode, spec_base64_encode, spec_basepoint, spec_session_key,
    spec_x25519, CryptoError,
};
use crate::session::{CipherType, Session};
use crate::types::{MsgView, WireMessage};

verus! {

#[derive(Clone, Copy, Debug, PartialEq, Eq, Structural)]
pub enum HandshakeError {
    /// The first frame of the connection was not a handshake.
    UnexpectedMessage,
    /// The peer's key text is not valid base64.
    InvalidKeyEncoding,
    /// The peer's key does not decode to exactly 32 bytes.
    InvalidKeyLength,
}

/// The handshake frame one side sends: its own public key as base64
/// text.
pub fn handshake_message(kp: &KeyPair) -> (m: WireMessage)
    ensures
        m@ == (MsgView::Handshake { pubkey: spec_base64_encode(kp.public@) }),
{
    WireMessage::Handshake { pubkey: crate::crypto::pubkey_to_b64(&kp.public) }
}

/// Consumes the local secret and the peer's incoming message and
/// either establishes the session or aborts.
///
/// The established key is the session key of (own secret, peer
/// public); the final clause carries Diffie-Hellman symmetry: when
/// the peer's key is the image of a scalar, the peer derives this
/// same key on its side.
pub fn accept_handshake(secret: Vec<u8>, incoming: &WireMessage) -> (r: Result<
    Session,
    HandshakeError,
>)
    requires
        secret@.len() == 32,
    ensures
        (!(incoming@ is Handshake) ==> (r matches Err(e) && e
            == HandshakeError::UnexpectedMessage)),
        (match incoming@ {
            MsgView::Handshake { pubkey } => (match spec_base64_decode(pubkey) {
                Some(d) => {
                    if d.len() == 32 {
                        (r matches Ok(s) && s.wf() && s.cipher == CipherType::XChaCha20Poly1305
                            && s.key@ == spec_session_key(secret@, d) && (forall|sk2: Seq<u8>|
                            sk2.len() == 32 && d == #[trigger] spec_x25519(sk2,
                            spec_basepoint()) ==> s.key@ == spec_session_key(sk2, spec_x25519(
                            secret@, spec_basepoint()))))
                    } else {
                        (r matches Err(e) && e == HandshakeError::InvalidKeyLength)
                    }
                }
                None => (r matches Err(e) && e == HandshakeError::InvalidKeyEncoding),
            }),
            _ => true,
        }),
{
    match incoming {
        WireMessage::Handshake { pubkey } => {
            match crate::crypto::pubkey_from_b64(pubkey) {
                Ok(peer_pub) => {
                    let key = crate::crypto::derive_shared_key(secret, &peer_pub);
                    Ok(Session::new(key))
                }
                Err(CryptoError::InvalidKeyLength) => Err(HandshakeError::InvalidKeyLength),
                Err(_) => Err(HandshakeError::InvalidKeyEncoding),
            }
        }
        _ => Err(HandshakeError::UnexpectedMessage),
    }
}

} // verus!
