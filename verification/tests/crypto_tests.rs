use vnts::crypto::{aes_gcm_open, aes_gcm_seal, hex_lower, sha256, CipherSession, RsaCipher};

#[test]
fn aead_seal_open_round_trip() {
    let key: Vec<u8> = (0u8..32).collect();
    let nonce: Vec<u8> = (100u8..112).collect();
    let aad: Vec<u8> = vec![9, 9, 9];
    let msg: Vec<u8> = b"attack at dawn".to_vec();
    let sealed = aes_gcm_seal(&key, &nonce, &aad, &msg);
    assert_eq!(sealed.len(), msg.len() + 16);
    assert_eq!(aes_gcm_open(&key, &nonce, &aad, &sealed), Some(msg.clone()));
    // a flipped bit is refused
    let mut tampered = sealed.clone();
    tampered[0] ^= 1;
    assert_eq!(aes_gcm_open(&key, &nonce, &aad, &tampered), None);
    // the wrong associated data is refused
    let wrong_aad: Vec<u8> = vec![8];
    assert_eq!(aes_gcm_open(&key, &nonce, &wrong_aad, &sealed), None);
}

#[test]
fn session_seal_open_round_trip() {
    let key: Vec<u8> = (0u8..32).collect();
    let s = CipherSession::new(key);
    let aad: Vec<u8> = vec![1, 2, 3, 4];
    let msg: Vec<u8> = b"hello peer".to_vec();
    let sealed = s.seal(0x0A1A_0002, 7, &aad, &msg);
    assert_eq!(s.open(0x0A1A_0002, 7, &aad, &sealed), Some(msg.clone()));
    // a different nonce input fails the tag
    assert_eq!(s.open(0x0A1A_0003, 7, &aad, &sealed), None);
    let mut tampered = sealed.clone();
    let last = tampered.len() - 1;
    tampered[last] ^= 0x80;
    assert_eq!(s.open(0x0A1A_0002, 7, &aad, &tampered), None);
}

#[test]
fn fingerprint_mac_is_keyed() {
    let s1 = CipherSession::new(vec![1u8; 32]);
    let s2 = CipherSession::new(vec![2u8; 32]);
    let data: Vec<u8> = b"packet bytes".to_vec();
    let m1 = s1.finger_mac(&data);
    let m2 = s2.finger_mac(&data);
    assert_eq!(m1.len(), 12);
    assert_ne!(m1, m2);
    assert_eq!(m1, s1.finger_mac(&data));
}

#[test]
fn hex_rendering() {
    assert_eq!(hex_lower(&vec![0x00, 0xAB, 0x1F]), b"00ab1f".to_vec());
    assert_eq!(hex_lower(&Vec::new()), Vec::<u8>::new());
    // SHA-256 of the empty input, a published constant
    let d = sha256(&Vec::new());
    assert_eq!(
        hex_lower(&d),
        b"e3b0c44298fc1c149afbf4c8996fb92427ae41e4649b934ca495991b7852b855".to_vec()
    );
}

#[test]
fn rsa_round_trip_and_limits() {
    let rsa = RsaCipher::generate().unwrap();
    assert_eq!(rsa.modulus_len(), 256);
    let msg: Vec<u8> = b"thirty-six octet handshake payload!!".to_vec();
    let sealed = rsa.encrypt(&msg).unwrap();
    assert_eq!(sealed.len(), 256);
    assert_eq!(rsa.decrypt_raw(&sealed), Some(msg.clone()));
    // garbage is refused
    assert_eq!(rsa.decrypt_raw(&vec![0u8; 256]), None);
    // the padding needs eleven octets: 245 fits, 246 does not
    let big: Vec<u8> = vec![7u8; 245];
    assert!(rsa.encrypt(&big).is_ok());
    let too_big: Vec<u8> = vec![7u8; 246];
    assert!(rsa.encrypt(&too_big).is_err());
    // the key survives its persisted form
    let pem = rsa.to_pkcs8_pem().unwrap();
    let reloaded = RsaCipher::from_pkcs8_pem(&pem).unwrap();
    assert_eq!(reloaded.public_key_der(), rsa.public_key_der());
    assert_eq!(reloaded.decrypt_raw(&sealed), Some(msg));
    // the fingerprint is 64 hex characters over the public encoding
    let f = rsa.finger();
    assert_eq!(f.len(), 64);
    assert_eq!(f, reloaded.finger());
}

#[test]
fn pem_parse_failure_is_reported() {
    assert!(RsaCipher::from_pkcs8_pem("not a pem document").is_err());
}
