//! The message vocabulary of the wire protocol.

use vstd::prelude::*;

verus! {

/// Every message that can travel between two peers. String-valued
/// fields are carried as raw bytes: `pubkey`, `payload` and `nonce`
/// hold base64 text, `sender_id` and `id` hold UTF-8 text.
#[derive(Debug, Clone, PartialEq, Eq)]
pub enum WireMessage {
    /// Carries one side's base64-encoded public key during session
    /// establishment.
    Handshake { pubkey: Vec<u8> },
    /// One encrypted chat line: `payload` and `nonce` are the base64
    /// text of the ciphertext and of the 24-byte nonce.
    Chat { sender_id: Vec<u8>, timestamp: u64, payload: Vec<u8>, nonce: Vec<u8> },
    /// Reserved acknowledgement; carried on the wire but given no
    /// behaviour by the chat loop.
    Ack { id: Vec<u8> },
    /// Liveness probe; a no-op on receipt.
    Ping,
}

/// The mathematical shape of a `WireMessage`: the same four variants
/// over byte sequences.
pub enum MsgView {
    Handshake { pubkey: Seq<u8> },
    Chat { sender_id: Seq<u8>, timestamp: u64, payload: Seq<u8>, nonce: Seq<u8> },
    Ack { id: Seq<u8> },
    Ping,
}

impl View for WireMessage {
    type V = MsgView;

    open spec fn view(&self) -> MsgView {
        match self {
            WireMessage::Handshake { pubkey } => (MsgView::Handshake { pubkey: pubkey@ }),
            WireMessage::Chat { sender_id, timestamp, payload, nonce } => (MsgView::Chat {
                sender_id: sender_id@,
                timestamp: *timestamp,
                payload: payload@,
                nonce: nonce@,
            }),
            WireMessage::Ack { id } => (MsgView::Ack { id: id@ }),
            WireMessage::Ping => MsgView::Ping,
        }
    }
}

} // verus!
