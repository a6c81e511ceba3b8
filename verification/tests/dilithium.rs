use quanta_l1::pq_keys::{
    dilithium_to_address, generate_keypair, generate_keypair_deterministic, sign_message,
    verify_dilithium_signature, DilithiumKeyPair, DilithiumPublicKey, DilithiumSecretKey,
    DilithiumSignature, SignError,
};

#[test]
fn test_keypair() {
    let kp = generate_keypair_deterministic(&[0x42u8; 32]);
    assert_eq!(kp.public.0.len(), 1952);
    assert_eq!(kp.secret.0.len(), 4032);
    assert_ne!(kp.public.0, [0u8; 1952]);
}

#[test]
fn test_sign_verify() {
    let kp = generate_keypair_deterministic(&[0x42u8; 32]);
    let msg = b"hello quanta l1";
    let sig = sign_message(msg, &kp).unwrap();
    assert!(verify_dilithium_signature(msg, &sig.0, &kp.public.0));
}

#[test]
fn test_wrong_sig_fails() {
    let kp = generate_keypair_deterministic(&[0x42u8; 32]);
    assert!(!verify_dilithium_signature(b"msg", &[0u8; 3309], &kp.public.0));
}

#[test]
fn test_wrong_msg_fails() {
    let kp = generate_keypair_deterministic(&[0x42u8; 32]);
    let sig = sign_message(b"real msg", &kp).unwrap();
    assert!(!verify_dilithium_signature(b"fake msg", &sig.0, &kp.public.0));
}

#[test]
fn test_address() {
    let kp = generate_keypair_deterministic(&[0x42u8; 32]);
    let a = dilithium_to_address(&kp.public);
    assert!(a.starts_with("QR"));
    assert_eq!(a.len(), 42);
}

#[test]
fn test_verify_trait() {
    let kp = generate_keypair_deterministic(&[0x42u8; 32]);
    let msg = b"test";
    let sig = sign_message(msg, &kp).unwrap();
    assert!(sig.verify(&msg[..], &kp.public));
}

#[test]
fn test_deterministic() {
    let a = generate_keypair_deterministic(&[0x42u8; 32]);
    let b = generate_keypair_deterministic(&[0x42u8; 32]);
    assert_eq!(a.public.0, b.public.0);
}

#[test]
fn test_roundtrip() {
    let kp = generate_keypair_deterministic(&[0x42u8; 32]);
    let msg = b"QUANTA test";
    let sig = sign_message(msg, &kp).unwrap();
    assert!(sig.verify(&msg[..], &kp.public));
}

#[test]
fn test_multi_msgs() {
    let kp = generate_keypair_deterministic(&[0x42u8; 32]);
    let msgs: [&[u8]; 3] = [b"a", b"hello world", b""];
    for m in &msgs {
        let sig = sign_message(m, &kp).unwrap();
        assert!(verify_dilithium_signature(m, &sig.0, &kp.public.0));
    }
}

#[test]
fn test_keypair_uniqueness() {
    // Real entropy must be used: two generated pairs differ.
    let a = generate_keypair();
    let b = generate_keypair();
    assert_ne!(a.public.0, b.public.0, "generate_keypair() must produce distinct public keys with real entropy");
    assert_ne!(a.secret.0, b.secret.0, "generate_keypair() must produce distinct secret keys with real entropy");
}

#[test]
fn different_seeds_give_different_pairs() {
    let a = generate_keypair_deterministic(&[1u8; 32]);
    let b = generate_keypair_deterministic(&[2u8; 32]);
    assert_ne!(a.public.0, b.public.0);
    assert_ne!(a.secret.0, b.secret.0);
}

#[test]
fn secret_key_carries_public_seed() {
    // The secret key begins with rho, which is also the start of the public key.
    let kp = generate_keypair_deterministic(&[7u8; 32]);
    assert_eq!(kp.secret.0[..32], kp.public.0[..32]);
}

#[test]
fn mismatched_keypair_is_refused() {
    let a = generate_keypair_deterministic(&[1u8; 32]);
    let b = generate_keypair_deterministic(&[2u8; 32]);
    let mixed = DilithiumKeyPair { public: a.public.clone(), secret: b.secret.clone() };
    assert_eq!(sign_message(b"m", &mixed).unwrap_err(), SignError::InvalidKeyPair);
    let zero = DilithiumKeyPair {
        public: DilithiumPublicKey::default(),
        secret: DilithiumSecretKey::default(),
    };
    assert_eq!(sign_message(b"m", &zero).unwrap_err(), SignError::InvalidKeyPair);
}

#[test]
fn signature_does_not_verify_under_other_key() {
    let a = generate_keypair_deterministic(&[1u8; 32]);
    let b = generate_keypair_deterministic(&[2u8; 32]);
    let sig = sign_message(b"payload", &a).unwrap();
    assert!(!verify_dilithium_signature(b"payload", &sig.0, &b.public.0));
    assert!(!sig.verify(b"payload", &b.public));
}

#[test]
fn tampered_signature_fails() {
    let kp = generate_keypair_deterministic(&[3u8; 32]);
    let mut sig = sign_message(b"payload", &kp).unwrap();
    sig.0[10] ^= 0x01;
    assert!(!verify_dilithium_signature(b"payload", &sig.0, &kp.public.0));
}

#[test]
fn generated_pair_signs_and_verifies() {
    let kp = generate_keypair();
    let sig = sign_message(b"fresh", &kp).unwrap();
    assert!(sig.verify(b"fresh", &kp.public));
}

#[test]
fn address_is_qr_and_first_twenty_bytes_in_hex() {
    let mut bytes = [0u8; 1952];
    for (i, b) in bytes.iter_mut().enumerate().take(20) {
        *b = (i as u8) * 13;
    }
    bytes[20] = 0xff;
    let a = dilithium_to_address(&DilithiumPublicKey(bytes));
    assert_eq!(a, "QR000d1a2734414e5b6875828f9ca9b6c3d0ddeaf7");
}

#[test]
fn address_of_zero_key() {
    let a = dilithium_to_address(&DilithiumPublicKey::default());
    assert_eq!(a, format!("QR{}", "0".repeat(40)));
}

#[test]
fn public_key_text_lists_bytes_in_decimal() {
    let mut bytes = [0u8; 1952];
    bytes[0] = 1;
    bytes[1] = 255;
    bytes[1951] = 42;
    let text = DilithiumPublicKey(bytes).to_string();
    assert_eq!(text, format!("{:?}", bytes));
    assert!(text.starts_with("[1, 255, 0, "));
    assert!(text.ends_with(", 0, 42]"));
}

#[test]
fn public_key_from_bytes_checks_length() {
    let ok = DilithiumPublicKey::from_bytes(&[9u8; 1952]).unwrap();
    assert_eq!(ok.0, [9u8; 1952]);
    assert!(DilithiumPublicKey::from_bytes(&[9u8; 1951]).is_none());
    assert!(DilithiumPublicKey::from_bytes(&[]).is_none());
}

#[test]
fn defaults_are_zero() {
    assert_eq!(DilithiumPublicKey::default().0, [0u8; 1952]);
    assert_eq!(DilithiumSignature::default().0, [0u8; 3309]);
    assert_eq!(DilithiumSecretKey::default().0, [0u8; 4032]);
}

#[test]
fn public_key_is_its_own_account() {
    let kp = generate_keypair_deterministic(&[5u8; 32]);
    let account = kp.public.clone().into_account();
    assert_eq!(account, kp.public);
}
