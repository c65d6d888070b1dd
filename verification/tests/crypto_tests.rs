use peer_chat::crypto::{
    decrypt_message, derive_shared_key, encrypt_message, generate_keypair, keypair_from_secret,
    pubkey_from_b64, pubkey_to_b64, CryptoError,
};

fn hex(s: &str) -> Vec<u8> {
    let b = s.as_bytes();
    let mut out = Vec::new();
    let mut i = 0;
    while i + 1 < b.len() {
        let v = |c: u8| -> u8 {
            match c {
                b'0'..=b'9' => c - b'0',
                b'a'..=b'f' => c - b'a' + 10,
                b'A'..=b'F' => c - b'A' + 10,
                _ => panic!("not hex"),
            }
        };
        out.push(v(b[i]) * 16 + v(b[i + 1]));
        i += 2;
    }
    out
}

// The Diffie-Hellman test vectors of RFC 7748, section 6.1.
const ALICE_PRIV: &str = "77076d0a7318a57d3c16c17251b26645df4c2f87ebc0992ab177fba51db92c2a";
const ALICE_PUB: &str = "8520f0098930a754748b7ddcb43ef75a0dbf3a0d26381af4eba4a98eaa9b4e6a";
const BOB_PRIV: &str = "5dab087e624a8a4b79e17f8b83800ee66f3bb1292618b6fd1c2f8b27ff88e0eb";
const BOB_PUB: &str = "de9edb7d7b7dc1b4d35b61c2ece435373f8343c85b78674dadfc7e146f882b4f";
const SHARED: &str = "4a5d9d5ba4ce2de1728e3bf480350f25e07e21c947d19e3376f09b3c1e161742";

#[test]
fn public_key_matches_rfc_vector() {
    let kp = keypair_from_secret(hex(ALICE_PRIV));
    assert_eq!(kp.public, hex(ALICE_PUB));
    let kp = keypair_from_secret(hex(BOB_PRIV));
    assert_eq!(kp.public, hex(BOB_PUB));
}

#[test]
fn shared_key_symmetric() {
    let a = derive_shared_key(hex(ALICE_PRIV), &hex(BOB_PUB));
    let b = derive_shared_key(hex(BOB_PRIV), &hex(ALICE_PUB));
    assert_eq!(a, b);
    assert_eq!(a.len(), 32);
    // the session key is the hash of the shared point, not the point itself
    assert_ne!(a, hex(SHARED));
}

#[test]
fn generated_keypairs_agree() {
    let a = generate_keypair();
    let b = generate_keypair();
    let ka = derive_shared_key(a.secret.clone(), &b.public);
    let kb = derive_shared_key(b.secret.clone(), &a.public);
    assert_eq!(ka, kb);
    assert_ne!(a.public, a.secret);
}

#[test]
fn aead_round_trip() {
    let key = derive_shared_key(hex(ALICE_PRIV), &hex(BOB_PUB));
    let pt = b"attack at dawn".to_vec();
    let (ct, nonce) = encrypt_message(&key, &pt);
    assert_eq!(nonce.len(), 24);
    assert_eq!(ct.len(), pt.len() + 16);
    assert_ne!(ct, pt);
    assert_eq!(decrypt_message(&key, &ct, &nonce).unwrap(), pt);
}

#[test]
fn aead_tamper_one_bit_fails() {
    let key = derive_shared_key(hex(ALICE_PRIV), &hex(BOB_PUB));
    let pt = b"attack at dawn".to_vec();
    let (mut ct, nonce) = encrypt_message(&key, &pt);
    ct[3] ^= 0x01;
    assert!(matches!(
        decrypt_message(&key, &ct, &nonce),
        Err(CryptoError::AuthenticationFailed)
    ));
}

#[test]
fn aead_wrong_key_fails() {
    let key = derive_shared_key(hex(ALICE_PRIV), &hex(BOB_PUB));
    let mut other = key.clone();
    other[0] ^= 0xff;
    let (ct, nonce) = encrypt_message(&key, &b"hi".to_vec());
    assert!(matches!(
        decrypt_message(&other, &ct, &nonce),
        Err(CryptoError::AuthenticationFailed)
    ));
}

#[test]
fn aead_wrong_nonce_length_fails() {
    let key = derive_shared_key(hex(ALICE_PRIV), &hex(BOB_PUB));
    let (ct, _) = encrypt_message(&key, &b"hi".to_vec());
    let short = vec![0u8; 12];
    assert!(matches!(
        decrypt_message(&key, &ct, &short),
        Err(CryptoError::InvalidNonce)
    ));
}

#[test]
fn nonces_do_not_repeat() {
    let key = derive_shared_key(hex(ALICE_PRIV), &hex(BOB_PUB));
    let mut nonces: Vec<Vec<u8>> = Vec::new();
    for _ in 0..100 {
        let (_, nonce) = encrypt_message(&key, &b"x".to_vec());
        assert!(!nonces.contains(&nonce));
        nonces.push(nonce);
    }
}

#[test]
fn pubkey_base64_round_trip() {
    let kp = keypair_from_secret(hex(ALICE_PRIV));
    let text = pubkey_to_b64(&kp.public);
    assert_eq!(pubkey_from_b64(&text).unwrap(), kp.public);
}

#[test]
fn base64_is_real_encoding() {
    assert_eq!(pubkey_to_b64(&b"hello".to_vec()), b"aGVsbG8=".to_vec());
}

#[test]
fn pubkey_from_b64_rejects_bad_text() {
    assert!(matches!(
        pubkey_from_b64(&b"!!!not base64!!!".to_vec()),
        Err(CryptoError::InvalidKeyEncoding)
    ));
}

#[test]
fn pubkey_from_b64_rejects_wrong_length() {
    assert!(matches!(
        pubkey_from_b64(&b"aGVsbG8=".to_vec()),
        Err(CryptoError::InvalidKeyLength)
    ));
}
