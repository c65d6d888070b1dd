use peer_chat::chat::{receiver_step, sender_step, ChatError, ReceiverAction, SenderAction};
use peer_chat::codec::{decode_frame, encode_frame};
use peer_chat::crypto::{generate_keypair, CryptoError};
use peer_chat::handshake::{accept_handshake, handshake_message, HandshakeError};
use peer_chat::{CipherType, Session, WireMessage};

fn established_pair() -> (Session, Session) {
    // Initiator side A, responder side B, over a simulated stream.
    let kp_a = generate_keypair();
    let kp_b = generate_keypair();
    // A sends its handshake frame first; B reads it.
    let frame_a = encode_frame(&handshake_message(&kp_a)).unwrap();
    let (msg_at_b, _) = decode_frame(&frame_a).unwrap().unwrap();
    let session_b = accept_handshake(kp_b.secret.clone(), &msg_at_b).unwrap();
    // B replies with its handshake frame; A reads it.
    let frame_b = encode_frame(&handshake_message(&kp_b)).unwrap();
    let (msg_at_a, _) = decode_frame(&frame_b).unwrap().unwrap();
    let session_a = accept_handshake(kp_a.secret.clone(), &msg_at_a).unwrap();
    (session_a, session_b)
}

#[test]
fn handshake_both_sides_derive_same_key() {
    let (a, b) = established_pair();
    assert_eq!(a.key, b.key);
    assert_eq!(a.key.len(), 32);
}

#[test]
fn hello_travels_end_to_end() {
    let (a, b) = established_pair();
    let act = sender_step(&a, b"me".to_vec(), 1700000000, &b"hello".to_vec()).unwrap();
    let frame = match act {
        SenderAction::Send(f) => f,
        other => panic!("expected a send, got {:?}", other),
    };
    let (msg, _) = decode_frame(&frame).unwrap().unwrap();
    match receiver_step(&b, &msg).unwrap() {
        ReceiverAction::Deliver(pt) => assert_eq!(pt, b"hello".to_vec()),
        other => panic!("expected delivery, got {:?}", other),
    }
}

#[test]
fn non_handshake_first_frame_aborts() {
    let kp = generate_keypair();
    let err = accept_handshake(kp.secret, &WireMessage::Ping).unwrap_err();
    assert_eq!(err, HandshakeError::UnexpectedMessage);
}

#[test]
fn malformed_handshake_key_aborts() {
    let kp = generate_keypair();
    let bad = WireMessage::Handshake { pubkey: b"???".to_vec() };
    assert_eq!(
        accept_handshake(kp.secret.clone(), &bad).unwrap_err(),
        HandshakeError::InvalidKeyEncoding
    );
    let short = WireMessage::Handshake { pubkey: b"aGVsbG8=".to_vec() };
    assert_eq!(
        accept_handshake(kp.secret, &short).unwrap_err(),
        HandshakeError::InvalidKeyLength
    );
}

#[test]
fn peer_close_is_clean_termination() {
    // After establishment the peer closes its stream: the receiver
    // sees an empty read, which the codec classifies as a clean end
    // of stream, not an error.
    let (_a, _b) = established_pair();
    assert!(matches!(decode_frame(&Vec::new()), Ok(None)));
}

#[test]
fn tampered_ciphertext_is_rejected_not_delivered() {
    let (a, b) = established_pair();
    let act = sender_step(&a, b"me".to_vec(), 1, &b"secret text".to_vec()).unwrap();
    let frame = match act {
        SenderAction::Send(f) => f,
        other => panic!("expected a send, got {:?}", other),
    };
    // flip one bit inside the base64 payload region of the frame
    let (msg, _) = decode_frame(&frame).unwrap().unwrap();
    let tampered = match msg {
        WireMessage::Chat { sender_id, timestamp, payload, nonce } => {
            let mut ct = peer_chat::crypto::decode_base64(&payload).unwrap();
            ct[0] ^= 0x01;
            WireMessage::Chat {
                sender_id,
                timestamp,
                payload: peer_chat::crypto::encode_base64(&ct),
                nonce,
            }
        }
        other => panic!("expected a chat message, got {:?}", other),
    };
    assert_eq!(receiver_step(&b, &tampered).unwrap_err(), ChatError::AuthenticationFailed);
}

#[test]
fn receiver_ignores_ping_and_ack() {
    let (_a, b) = established_pair();
    assert_eq!(receiver_step(&b, &WireMessage::Ping).unwrap(), ReceiverAction::Ignore);
    assert_eq!(
        receiver_step(&b, &WireMessage::Ack { id: b"1".to_vec() }).unwrap(),
        ReceiverAction::Ignore
    );
}

#[test]
fn receiver_rejects_late_handshake() {
    let (_a, b) = established_pair();
    let m = WireMessage::Handshake { pubkey: b"QQ==".to_vec() };
    assert_eq!(receiver_step(&b, &m).unwrap_err(), ChatError::UnexpectedMessage);
}

#[test]
fn receiver_rejects_bad_base64_fields() {
    let (_a, b) = established_pair();
    let m = WireMessage::Chat {
        sender_id: b"me".to_vec(),
        timestamp: 1,
        payload: b"???".to_vec(),
        nonce: b"QQ==".to_vec(),
    };
    assert_eq!(receiver_step(&b, &m).unwrap_err(), ChatError::InvalidPayloadEncoding);
    let m = WireMessage::Chat {
        sender_id: b"me".to_vec(),
        timestamp: 1,
        payload: b"QQ==".to_vec(),
        nonce: b"???".to_vec(),
    };
    assert_eq!(receiver_step(&b, &m).unwrap_err(), ChatError::InvalidNonceEncoding);
    let m = WireMessage::Chat {
        sender_id: b"me".to_vec(),
        timestamp: 1,
        payload: b"QQ==".to_vec(),
        nonce: b"QQ==".to_vec(),
    };
    assert_eq!(receiver_step(&b, &m).unwrap_err(), ChatError::InvalidNonce);
}

#[test]
fn sender_quit_and_empty_lines() {
    let (a, _b) = established_pair();
    assert_eq!(
        sender_step(&a, b"me".to_vec(), 1, &b"/quit".to_vec()).unwrap(),
        SenderAction::Quit
    );
    assert_eq!(
        sender_step(&a, b"me".to_vec(), 1, &Vec::new()).unwrap(),
        SenderAction::Nothing
    );
}

#[test]
fn session_round_trip_and_cipher_gate() {
    let (a, _b) = established_pair();
    let (ct, nonce) = a.encrypt(&b"hi".to_vec()).unwrap();
    assert_eq!(a.decrypt(&ct, &nonce).unwrap(), b"hi".to_vec());

    let dead = Session { key: a.key.clone(), cipher: CipherType::AES256GCM };
    assert!(matches!(dead.encrypt(&b"hi".to_vec()), Err(CryptoError::UnsupportedCipher)));
    assert!(matches!(dead.decrypt(&ct, &nonce), Err(CryptoError::UnsupportedCipher)));
    let err = sender_step(&dead, b"me".to_vec(), 1, &b"hi".to_vec()).unwrap_err();
    assert_eq!(err, ChatError::UnsupportedCipher);
}
