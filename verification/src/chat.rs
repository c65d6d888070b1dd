//! The decision core of the chat loop. The loop's two concurrent
//! halves — the sender reading local lines and the receiver reading
//! frames — each reduce to one pure step function here; the
//! surrounding program performs the reads, writes and waiting.
//!
//! Receiver policy: a `Chat` message is decrypted and delivered; a
//! `Ping` and the reserved `Ack` are ignored; a `Handshake` after
//! establishment is a protocol error; a failed decode or
//! authentication ends the connection, never a silent skip.

use vstd::prelude::*;
use crate::codec::{spec_encode_msg, spec_frame, MAX_PAYLOAD_LEN};
use crate::crypto::{
    spec_aead_decrypt, spec_aead_encrypt, spec_base64_decode, spec_base64_encode,
    CryptoError, MAX_PLAINTEXT_LEN,
};
use crate::session::{CipherType, Session};
use crate::types::{MsgView, WireMessage};

verus! {

#[derive(Clone, Copy, Debug, PartialEq, Eq, Structural)]
pub enum ChatError {
    /// The session's cipher is declared but not implemented.
    UnsupportedCipher,
    /// The outgoing line exceeds the plaintext bound.
    MessageTooLong,
    /// The incoming payload text is not valid base64.
    InvalidPayloadEncoding,
    /// The incoming nonce text is not valid base64.
    InvalidNonceEncoding,
    /// The incoming nonce is not 24 bytes.
    InvalidNonce,
    /// The authentication tag did not verify: tampering or a
    /// desynchronised key.
    AuthenticationFailed,
    /// A handshake frame arrived after the session was established.
    UnexpectedMessage,
}

/// What the sender half does with one local input line.
#[derive(Debug, Clone, PartialEq, Eq)]
pub enum SenderAction {
    /// The quit sentinel was entered: end the session cleanly.
    Quit,
    /// The line was empty: nothing to send.
    Nothing,
    /// Transmit these frame bytes.
    Send(Vec<u8>),
}

/// What the receiver half does with one incoming message.
#[derive(Debug, Clone, PartialEq, Eq)]
pub enum ReceiverAction {
    /// Show this decrypted plaintext to the user.
    Deliver(Vec<u8>),
    /// No visible action.
    Ignore,
}

/// The local input that ends the session: `/quit`.
pub open spec fn spec_quit_line() -> Seq<u8> {
    seq![0x2fu8, 0x71u8, 0x75u8, 0x69u8, 0x74u8]
}

fn quit_line() -> (v: Vec<u8>)
    ensures
        v@ == spec_quit_line(),
{
    let v: Vec<u8> = vec![0x2fu8, 0x71u8, 0x75u8, 0x69u8, 0x74u8];
    proof { assert(v@ =~= spec_quit_line()); }
    v
}

fn vec_eq(a: &Vec<u8>, b: &Vec<u8>) -> (r: bool)
    ensures
        r == (a@ == b@),
{
    if a.len() != b.len() {
        return false;
    }
    let mut k: usize = 0;
    while k < a.len()
        invariant
            k <= a@.len(),
            a@.len() == b@.len(),
            forall|m: int| 0 <= m < k ==> a@[m] == b@[m],
        decreases a@.len() - k,
    {
        if a[k] != b[k] {
            return false;
        }
        k = k + 1;
    }
    proof {
        assert(a@ =~= b@);
    }
    true
}

/// One step of the sender half: classifies the trimmed input line
/// and, for ordinary text, encrypts it and builds the framed `Chat`
/// message carrying the base64 ciphertext and nonce.
#[verifier::rlimit(100)]
pub fn sender_step(session: &Session, sender_id: Vec<u8>, timestamp: u64, line: &Vec<u8>) -> (r:
    Result<SenderAction, ChatError>)
    requires
        session.wf(),
        sender_id@.len() <= 4096,
    ensures
        (line@ == spec_quit_line() ==> (r matches Ok(a) && a == SenderAction::Quit)),
        (line@.len() == 0 ==> (r matches Ok(a) && a == SenderAction::Nothing)),
        (line@.len() != 0 && line@ != spec_quit_line() ==> (match session.cipher {
            CipherType::AES256GCM => (r matches Err(c) && c == ChatError::UnsupportedCipher),
            CipherType::XChaCha20Poly1305 => {
                if line@.len() > MAX_PLAINTEXT_LEN {
                    (r matches Err(c) && c == ChatError::MessageTooLong)
                } else {
                    (r matches Ok(a) && a matches SenderAction::Send(f) && (exists|n: Seq<u8>|
                        n.len() == 24 && f@ == spec_frame(spec_encode_msg(MsgView::Chat {
                            sender_id: sender_id@,
                            timestamp: timestamp,
                            payload: spec_base64_encode(
                                #[trigger] spec_aead_encrypt(session.key@, n, line@)),
                            nonce: spec_base64_encode(n),
                        }))))
                }
            }
        })),
{
    let quit = quit_line();
    if vec_eq(line, &quit) {
        return Ok(SenderAction::Quit);
    }
    if line.len() == 0 {
        return Ok(SenderAction::Nothing);
    }
    match session.cipher {
        CipherType::AES256GCM => Err(ChatError::UnsupportedCipher),
        CipherType::XChaCha20Poly1305 => {
            if line.len() > MAX_PLAINTEXT_LEN {
                return Err(ChatError::MessageTooLong);
            }
            match session.encrypt(line) {
                Ok((ct, nonce)) => {
                    let payload = crate::crypto::encode_base64(&ct);
                    let nonce_text = crate::crypto::encode_base64(&nonce);
                    let ghost nonce_bytes = nonce@;
                    let msg = WireMessage::Chat {
                        sender_id,
                        timestamp,
                        payload,
                        nonce: nonce_text,
                    };
                    proof {
                        lemma_chat_payload_fits(msg@, line@.len() as int);
                    }
                    match crate::codec::encode_frame(&msg) {
                        Ok(f) => {
                            proof {
                                assert(nonce_bytes.len() == 24 && f@ == spec_frame(
                                    spec_encode_msg(MsgView::Chat {
                                        sender_id: sender_id@,
                                        timestamp: timestamp,
                                        payload: spec_base64_encode(spec_aead_encrypt(
                                            session.key@, nonce_bytes, line@)),
                                        nonce: spec_base64_encode(nonce_bytes),
                                    })));
                            }
                            Ok(SenderAction::Send(f))
                        }
                        Err(_) => {
                            // unreachable: the payload was proved to fit the frame bound
                            proof {
                                assert(false);
                            }
                            Err(ChatError::MessageTooLong)
                        }
                    }
                }
                // unreachable: with this cipher, encryption succeeds
                Err(_) => Err(ChatError::UnsupportedCipher),
            }
        }
    }
}

/// A framed chat message built from a bounded sender id and a
/// bounded plaintext stays well inside the frame payload bound.
proof fn lemma_chat_payload_fits(m: MsgView, line_len: int)
    requires
        0 <= line_len <= MAX_PLAINTEXT_LEN,
        m matches MsgView::Chat { sender_id, timestamp, payload, nonce } && sender_id.len()
            <= 4096 && payload.len() == 4 * ((line_len + 16 + 2) / 3) && nonce.len() == 32 && (
        forall|k: int| 0 <= k < payload.len() ==> crate::codec::spec_plain_byte(
            #[trigger] payload[k])) && (forall|k: int| 0 <= k < nonce.len()
            ==> crate::codec::spec_plain_byte(#[trigger] nonce[k])),
    ensures
        spec_encode_msg(m).len() <= MAX_PAYLOAD_LEN,
{
    match m {
        MsgView::Chat { sender_id, timestamp, payload, nonce } => {
            crate::codec::lemma_escape_len(sender_id);
            crate::codec::lemma_escape_plain(payload);
            crate::codec::lemma_escape_plain(nonce);
            crate::codec::lemma_dec_u64_len(timestamp);
        }
        _ => {}
    }
}

/// One step of the receiver half: classifies an incoming message
/// and, for a `Chat`, decodes the base64 fields and decrypts.
pub fn receiver_step(session: &Session, msg: &WireMessage) -> (r: Result<
    ReceiverAction,
    ChatError,
>)
    requires
        session.wf(),
    ensures
        (msg@ is Ping ==> (r matches Ok(a) && a == ReceiverAction::Ignore)),
        (msg@ is Ack ==> (r matches Ok(a) && a == ReceiverAction::Ignore)),
        (msg@ is Handshake ==> (r matches Err(c) && c == ChatError::UnexpectedMessage)),
        (match msg@ {
            MsgView::Chat { sender_id, timestamp, payload, nonce } => (match spec_base64_decode(
                payload) {
                None => (r matches Err(c) && c == ChatError::InvalidPayloadEncoding),
                Some(ct) => (match spec_base64_decode(nonce) {
                    None => (r matches Err(c) && c == ChatError::InvalidNonceEncoding),
                    Some(nb) => (match session.cipher {
                        CipherType::AES256GCM => (r matches Err(c) && c
                            == ChatError::UnsupportedCipher),
                        CipherType::XChaCha20Poly1305 => {
                            if nb.len() != 24 {
                                (r matches Err(c) && c == ChatError::InvalidNonce)
                            } else {
                                (match spec_aead_decrypt(session.key@, nb, ct) {
                                    Some(p) => (r matches Ok(a) && a matches
                                        ReceiverAction::Deliver(pt) && pt@ == p),
                                    None => (r matches Err(c) && c
                                        == ChatError::AuthenticationFailed),
                                })
                            }
                        }
                    }),
                }),
            }),
            _ => true,
        }),
{
    match msg {
        WireMessage::Ping => Ok(ReceiverAction::Ignore),
        WireMessage::Ack { id: _ } => Ok(ReceiverAction::Ignore),
        WireMessage::Handshake { pubkey: _ } => Err(ChatError::UnexpectedMessage),
        WireMessage::Chat { sender_id: _, timestamp: _, payload, nonce } => {
            let ct = match crate::crypto::decode_base64(payload) {
                Some(v) => v,
                None => {
                    return Err(ChatError::InvalidPayloadEncoding);
                }
            };
            let nb = match crate::crypto::decode_base64(nonce) {
                Some(v) => v,
                None => {
                    return Err(ChatError::InvalidNonceEncoding);
                }
            };
            match session.decrypt(&ct, &nb) {
                Ok(pt) => Ok(ReceiverAction::Deliver(pt)),
                Err(CryptoError::InvalidNonce) => Err(ChatError::InvalidNonce),
                Err(CryptoError::AuthenticationFailed) => Err(ChatError::AuthenticationFailed),
                Err(_) => Err(ChatError::UnsupportedCipher),
            }
        }
    }
}

} // verus!
