//! Verified core of a peer-to-peer encrypted chat: the wire codec
//! (length-framed JSON messages), the cryptographic session layer
//! (X25519 key agreement, SHA-256 key derivation, XChaCha20-Poly1305
//! authenticated encryption), the handshake, the chat step logic, and
//! the alias store.

pub mod chat;
pub mod discovery;
pub mod codec;
pub mod crypto;
pub mod handshake;
pub mod persistence;
pub mod session;
pub mod types;

pub use codec::CodecError;
pub use codec::MAX_PAYLOAD_LEN;
pub use session::CipherType;
pub use session::Session;
pub use types::MsgView;
pub use types::WireMessage;
