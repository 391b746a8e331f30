use alayasiki::crypto::{
    xor_payload, AtRestCipher, CryptoError, InMemoryKmsKeyProvider, KmsHookCipher,
    KmsKeyProvider, NoOpCipher,
};

#[test]
fn kms_hook_cipher_round_trip() {
    let kms = InMemoryKmsKeyProvider::from_keys(vec![("kms-1".to_string(), vec![0xAA, 0xBB])]);
    let cipher = KmsHookCipher::new("kms-1", kms);

    let encrypted = cipher.encrypt(b"payload").unwrap();
    assert_ne!(encrypted, b"payload");

    let decrypted = cipher.decrypt(&encrypted).unwrap();
    assert_eq!(decrypted, b"payload");
}

#[test]
fn xor_payload_repeats_the_key() {
    assert_eq!(
        xor_payload(&[0x00, 0xFF, 0x0F, 0xF0, 0x55], &[0xAA, 0x0F]),
        Ok(vec![0xAA, 0xF0, 0xA5, 0xFF, 0xFF])
    );
    assert_eq!(xor_payload(&[], &[1]), Ok(vec![]));
    assert_eq!(xor_payload(&[1, 2], &[]), Err(CryptoError::EmptyKey));
}

#[test]
fn kms_cipher_fails_without_a_usable_key() {
    let kms = InMemoryKmsKeyProvider::from_keys(vec![("empty".to_string(), vec![])]);
    let missing = KmsHookCipher::new("absent", kms);
    assert_eq!(
        missing.encrypt(b"x"),
        Err(CryptoError::MissingKey("absent".to_string()))
    );
    let kms = InMemoryKmsKeyProvider::from_keys(vec![("empty".to_string(), vec![])]);
    let empty = KmsHookCipher::new("empty", kms);
    assert_eq!(empty.decrypt(b"x"), Err(CryptoError::EmptyKey));
    assert_eq!(empty.key_id(), Some("empty".to_string()));
}

#[test]
fn key_provider_keeps_the_last_key_of_an_id() {
    let kms = InMemoryKmsKeyProvider::from_keys(vec![
        ("k".to_string(), vec![1]),
        ("k".to_string(), vec![2, 3]),
    ]);
    assert_eq!(kms.resolve_data_key("k"), Ok(vec![2, 3]));
    assert_eq!(
        kms.resolve_data_key("other"),
        Err(CryptoError::MissingKey("other".to_string()))
    );
}

#[test]
fn noop_cipher_is_the_identity() {
    let cipher = NoOpCipher;
    assert_eq!(cipher.encrypt(b"plain"), Ok(b"plain".to_vec()));
    assert_eq!(cipher.decrypt(b"plain"), Ok(b"plain".to_vec()));
    assert_eq!(cipher.key_id(), None);
}

#[test]
fn crypto_errors_have_messages() {
    assert_eq!(
        CryptoError::MissingKey("k1".to_string()).message(),
        "kms key not found: k1"
    );
    assert_eq!(CryptoError::EmptyKey.message(), "kms key must not be empty");
}
