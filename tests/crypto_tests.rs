use zap_vault::crypto::CryptoService;
use zap_vault::error::ZapError;
use zap_vault::secret::EncryptedData;

#[test]
fn encrypt_then_decrypt_round_trips() {
    let c = CryptoService::new();
    let key = [7u8; 32];
    let d = c.encrypt("hello world", &key).unwrap();
    assert_eq!(d.nonce.len(), 12);
    assert_eq!(d.tag.len(), 16);
    assert_eq!(d.cipher.len(), 11);
    assert_ne!(d.cipher, b"hello world".to_vec());
    assert_eq!(c.decrypt(&d, &key).unwrap(), "hello world");
}

#[test]
fn round_trip_unicode() {
    let c = CryptoService::new();
    let key = [1u8; 32];
    let d = c.encrypt("päss wörd ✓", &key).unwrap();
    assert_eq!(c.decrypt(&d, &key).unwrap(), "päss wörd ✓");
}

#[test]
fn empty_plaintext_is_not_decryptable() {
    let c = CryptoService::new();
    let key = [1u8; 32];
    let d = c.encrypt("", &key).unwrap();
    assert!(d.cipher.is_empty());
    assert!(matches!(c.decrypt(&d, &key), Err(ZapError::CryptoError(_))));
}

#[test]
fn wrong_key_fails() {
    let c = CryptoService::new();
    let d = c.encrypt("secret", &[1u8; 32]).unwrap();
    assert!(matches!(c.decrypt(&d, &[2u8; 32]), Err(ZapError::CryptoError(_))));
}

#[test]
fn flipping_any_bit_fails() {
    let c = CryptoService::new();
    let key = [9u8; 32];
    let d = c.encrypt("tamper me", &key).unwrap();
    for part in 0..3 {
        let len = match part {
            0 => d.cipher.len(),
            1 => d.nonce.len(),
            _ => d.tag.len(),
        };
        for i in 0..len {
            for bit in 0..8 {
                let mut t = d.duplicate();
                let v = match part {
                    0 => &mut t.cipher,
                    1 => &mut t.nonce,
                    _ => &mut t.tag,
                };
                v[i] ^= 1 << bit;
                assert!(c.decrypt(&t, &key).is_err());
            }
        }
    }
}

#[test]
fn malformed_encrypted_data_is_rejected() {
    let c = CryptoService::new();
    let key = [0u8; 32];
    let bad = EncryptedData::new(vec![1, 2, 3], vec![0; 11], vec![0; 16]);
    assert!(!bad.is_valid());
    assert!(matches!(c.decrypt(&bad, &key), Err(ZapError::CryptoError(_))));
    let bad_tag = EncryptedData::new(vec![1, 2, 3], vec![0; 12], vec![0; 15]);
    assert!(matches!(c.decrypt(&bad_tag, &key), Err(ZapError::CryptoError(_))));
    assert!(!EncryptedData::empty().is_valid());
}

#[test]
fn derive_key_is_deterministic_and_salt_sensitive() {
    let c = CryptoService::new();
    let s1 = [3u8; 32];
    let s2 = [4u8; 32];
    let a = c.derive_key("password", &s1).unwrap();
    let b = c.derive_key("password", &s1).unwrap();
    let other = c.derive_key("password", &s2).unwrap();
    assert_eq!(a, b);
    assert_ne!(a, other);
}

#[test]
fn derive_key_rejects_short_salt() {
    let c = CryptoService::new();
    assert!(matches!(c.derive_key("password", &[0u8; 15]), Err(ZapError::CryptoError(_))));
    assert!(c.derive_key("password", &[0u8; 16]).is_ok());
}

#[test]
fn password_hash_verifies() {
    let c = CryptoService::new();
    let h = c.hash_password("correct horse").unwrap();
    assert_eq!(c.verify_password("correct horse", &h).unwrap(), true);
    assert_eq!(c.verify_password("wrong horse", &h).unwrap(), false);
    assert!(matches!(c.verify_password("x", "not a phc string"), Err(ZapError::CryptoError(_))));
}

#[test]
fn batches_round_trip() {
    let c = CryptoService::new();
    let key = [5u8; 32];
    let items = vec![("a".to_string(), "one".to_string()), ("b".to_string(), "two".to_string())];
    let enc = c.encrypt_batch(&items, &key).unwrap();
    assert_eq!(enc.len(), 2);
    let dec = c.decrypt_batch(&enc, &key).unwrap();
    assert_eq!(dec, vec!["one".to_string(), "two".to_string()]);
    assert!(c.decrypt_batch(&enc, &[6u8; 32]).is_err());
}

#[test]
fn random_values_differ() {
    let c = CryptoService::new();
    assert_ne!(c.generate_salt(), c.generate_salt());
    assert_ne!(c.generate_key(), c.generate_key());
}

#[test]
fn cipher_has_plaintext_byte_length_and_malformed_message() {
    let c = CryptoService::new();
    let key = [3u8; 32];
    let d = c.encrypt("héllo", &key).unwrap();
    assert_eq!(d.cipher.len(), "héllo".len());
    match c.decrypt(&EncryptedData::empty(), &key) {
        Err(ZapError::CryptoError(m)) => assert_eq!(m, "Invalid encrypted data"),
        other => panic!("unexpected {:?}", other),
    }
}
