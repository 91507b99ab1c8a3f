use cacao_engine::{bytes_to_hex, decrypt_data, derive_encryption_key, encrypt_data, hash_data, CacaoError};

#[test]
fn hash_of_empty_input_matches_known_vector() {
    let h = hash_data(&[]);
    assert_eq!(h, "e3b0c44298fc1c149afbf4c8996fb92427ae41e4649b934ca495991b7852b855");
}

#[test]
fn hash_of_abc_matches_known_vector() {
    let h = hash_data(b"abc");
    assert_eq!(h, "ba7816bf8f01cfea414140de5dae2223b00361a396177a9cb410ff61f20015ad");
}

#[test]
fn hex_rendering_is_two_digits_per_byte() {
    assert_eq!(bytes_to_hex(&[0x00, 0x0f, 0xa5, 0xff]), "000fa5ff");
    assert_eq!(bytes_to_hex(&[]), "");
}

#[test]
fn encrypt_then_decrypt_returns_plaintext() {
    let key = derive_encryption_key("k1");
    let plain = b"some save record bytes".to_vec();
    let cipher = encrypt_data(&plain, &key).unwrap();
    assert_eq!(cipher.len(), plain.len() + 28);
    let back = decrypt_data(&cipher, &key).unwrap();
    assert_eq!(back, plain);
}

#[test]
fn decrypt_with_other_key_fails() {
    let k1 = derive_encryption_key("k1");
    let k2 = derive_encryption_key("k2");
    assert_ne!(k1, k2);
    let cipher = encrypt_data(b"payload", &k1).unwrap();
    assert!(matches!(decrypt_data(&cipher, &k2), Err(CacaoError::CryptoError(_))));
}

#[test]
fn decrypt_rejects_short_input() {
    let key = derive_encryption_key("k1");
    assert!(matches!(decrypt_data(&[1, 2, 3], &key), Err(CacaoError::CryptoError(_))));
}

#[test]
fn decrypt_rejects_tampered_ciphertext() {
    let key = derive_encryption_key("k1");
    let mut cipher = encrypt_data(b"payload", &key).unwrap();
    let last = cipher.len() - 1;
    cipher[last] ^= 0x01;
    assert!(decrypt_data(&cipher, &key).is_err());
}

#[test]
fn key_derivation_is_deterministic() {
    assert_eq!(derive_encryption_key("alpha"), derive_encryption_key("alpha"));
    assert_ne!(derive_encryption_key("alpha"), derive_encryption_key("beta"));
}
