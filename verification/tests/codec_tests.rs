use peer_chat::codec::{decode_frame, decode_message, encode_frame, encode_message, CodecError};
use peer_chat::WireMessage;

fn chat_msg() -> WireMessage {
    WireMessage::Chat {
        sender_id: b"me".to_vec(),
        timestamp: 1234567890,
        payload: b"aGVsbG8=".to_vec(),
        nonce: b"QUJDREVGR0hJSktMTU5PUFFSU1RVVldY".to_vec(),
    }
}

#[test]
fn round_trip_ping() {
    let m = WireMessage::Ping;
    let e = encode_message(&m);
    assert_eq!(e, b"\"Ping\"".to_vec());
    assert_eq!(decode_message(&e).unwrap(), m);
}

#[test]
fn round_trip_handshake() {
    let m = WireMessage::Handshake { pubkey: b"c29tZWtleQ==".to_vec() };
    let e = encode_message(&m);
    assert_eq!(e, b"{\"Handshake\":{\"pubkey\":\"c29tZWtleQ==\"}}".to_vec());
    assert_eq!(decode_message(&e).unwrap(), m);
}

#[test]
fn round_trip_ack() {
    let m = WireMessage::Ack { id: b"msg-1".to_vec() };
    let e = encode_message(&m);
    assert_eq!(e, b"{\"Ack\":{\"id\":\"msg-1\"}}".to_vec());
    assert_eq!(decode_message(&e).unwrap(), m);
}

#[test]
fn round_trip_chat_exact_json() {
    let m = chat_msg();
    let e = encode_message(&m);
    assert_eq!(
        e,
        b"{\"Chat\":{\"sender_id\":\"me\",\"timestamp\":1234567890,\"payload\":\"aGVsbG8=\",\"nonce\":\"QUJDREVGR0hJSktMTU5PUFFSU1RVVldY\"}}".to_vec()
    );
    assert_eq!(decode_message(&e).unwrap(), m);
}

#[test]
fn round_trip_escaped_sender() {
    let m = WireMessage::Chat {
        sender_id: b"a\"b\\c\nd\te\x01f".to_vec(),
        timestamp: 0,
        payload: b"".to_vec(),
        nonce: b"".to_vec(),
    };
    let e = encode_message(&m);
    assert_eq!(decode_message(&e).unwrap(), m);
}

#[test]
fn round_trip_timestamp_extremes() {
    for ts in [0u64, 7, 10, u64::MAX] {
        let m = WireMessage::Chat {
            sender_id: b"me".to_vec(),
            timestamp: ts,
            payload: b"QQ==".to_vec(),
            nonce: b"QQ==".to_vec(),
        };
        let e = encode_message(&m);
        assert_eq!(decode_message(&e).unwrap(), m);
    }
}

#[test]
fn decode_rejects_malformed() {
    assert!(matches!(decode_message(&b"{\"Nope\":1}".to_vec()), Err(CodecError::Malformed)));
    assert!(matches!(decode_message(&b"\"Pong\"".to_vec()), Err(CodecError::Malformed)));
    assert!(matches!(decode_message(&b"".to_vec()), Err(CodecError::Malformed)));
    // trailing bytes after a valid message
    assert!(matches!(decode_message(&b"\"Ping\" ".to_vec()), Err(CodecError::Malformed)));
    // a leading zero in the timestamp is not canonical
    assert!(matches!(
        decode_message(
            &b"{\"Chat\":{\"sender_id\":\"m\",\"timestamp\":007,\"payload\":\"\",\"nonce\":\"\"}}"
                .to_vec()
        ),
        Err(CodecError::Malformed)
    ));
    // a timestamp beyond u64 range is refused, not wrapped
    assert!(matches!(
        decode_message(
            &b"{\"Chat\":{\"sender_id\":\"m\",\"timestamp\":99999999999999999999999,\"payload\":\"\",\"nonce\":\"\"}}"
                .to_vec()
        ),
        Err(CodecError::Malformed)
    ));
}

#[test]
fn frame_round_trip() {
    let m = chat_msg();
    let f = encode_frame(&m).unwrap();
    let payload = encode_message(&m);
    assert_eq!(f.len(), payload.len() + 4);
    let n = u32::from_be_bytes([f[0], f[1], f[2], f[3]]) as usize;
    assert_eq!(n, payload.len());
    let got = decode_frame(&f).unwrap().unwrap();
    assert_eq!(got.0, m);
    assert_eq!(got.1, f.len());
}

#[test]
fn frame_trailing_bytes_left_for_next_read() {
    let mut f = encode_frame(&WireMessage::Ping).unwrap();
    let consumed = f.len();
    f.extend_from_slice(&[1, 2, 3]);
    let got = decode_frame(&f).unwrap().unwrap();
    assert_eq!(got.0, WireMessage::Ping);
    assert_eq!(got.1, consumed);
}

#[test]
fn frame_truncation_is_an_error() {
    let f = encode_frame(&chat_msg()).unwrap();
    // cut inside the payload: declared length exceeds available bytes
    let cut = f[..f.len() - 1].to_vec();
    assert!(matches!(decode_frame(&cut), Err(CodecError::Truncated)));
    // cut inside the length prefix
    let cut = f[..3].to_vec();
    assert!(matches!(decode_frame(&cut), Err(CodecError::Truncated)));
}

#[test]
fn frame_clean_eof_is_none() {
    assert!(matches!(decode_frame(&Vec::new()), Ok(None)));
}

#[test]
fn frame_oversized_length_is_refused() {
    let huge = vec![0xffu8, 0xff, 0xff, 0xff, 0x00];
    assert!(matches!(decode_frame(&huge), Err(CodecError::LengthExceedsMax)));
}
