use base64::Engine;
use ring::aead::{Aad, LessSafeKey, Nonce, UnboundKey, AES_256_GCM};
use kaya_sync::error::{CryptoFailure, KayaError};
use kaya_sync::vault::{decrypt_password, encrypt_password, encrypt_with_nonce};

const KEY: [u8; 32] = [7u8; 32];

#[test]
fn round_trip_recovers_password() {
    for p in ["secret", "", "pässwörd ✓", "a much longer password with spaces"] {
        let blob = encrypt_password(p, &KEY).unwrap();
        assert_eq!(decrypt_password(&blob, &KEY).unwrap(), p);
    }
}

#[test]
fn blob_layout_is_nonce_ciphertext_tag() {
    let nonce = [1u8; 12];
    let blob = encrypt_with_nonce("secret", &KEY, &nonce).unwrap();
    let raw = base64::engine::general_purpose::STANDARD.decode(&blob).unwrap();
    assert_eq!(raw.len(), 12 + 6 + 16);
    assert_eq!(&raw[..12], &nonce);
    assert_ne!(&raw[12..18], b"secret");
}

#[test]
fn same_nonce_gives_same_blob() {
    let nonce = [9u8; 12];
    let a = encrypt_with_nonce("secret", &KEY, &nonce).unwrap();
    let b = encrypt_with_nonce("secret", &KEY, &nonce).unwrap();
    assert_eq!(a, b);
}

#[test]
fn fresh_nonce_per_encryption() {
    let a = encrypt_password("secret", &KEY).unwrap();
    let b = encrypt_password("secret", &KEY).unwrap();
    assert_ne!(a, b);
}

#[test]
fn flipping_any_bit_fails_decryption() {
    let blob = encrypt_password("secret", &KEY).unwrap();
    let raw = base64::engine::general_purpose::STANDARD.decode(&blob).unwrap();
    for i in 0..raw.len() {
        for bit in 0..8 {
            let mut t = raw.clone();
            t[i] ^= 1 << bit;
            let tampered = base64::engine::general_purpose::STANDARD.encode(&t);
            assert_eq!(
                decrypt_password(&tampered, &KEY),
                Err(KayaError::Encryption(CryptoFailure::OpenFailed))
            );
        }
    }
}

#[test]
fn flipping_a_bit_of_the_text_fails() {
    let blob = encrypt_password("secret", &KEY).unwrap();
    let bytes = blob.as_bytes();
    for i in 0..bytes.len() {
        let mut t = bytes.to_vec();
        t[i] ^= 1;
        if let Ok(s) = String::from_utf8(t) {
            assert!(decrypt_password(&s, &KEY).is_err());
        }
    }
}

#[test]
fn wrong_key_fails() {
    let blob = encrypt_password("secret", &KEY).unwrap();
    let other = [8u8; 32];
    assert_eq!(
        decrypt_password(&blob, &other),
        Err(KayaError::Encryption(CryptoFailure::OpenFailed))
    );
}

#[test]
fn short_blob_is_rejected() {
    let short = base64::engine::general_purpose::STANDARD.encode([0u8; 27]);
    assert_eq!(
        decrypt_password(&short, &KEY),
        Err(KayaError::Encryption(CryptoFailure::TooShort))
    );
}

#[test]
fn invalid_base64_is_rejected() {
    assert_eq!(decrypt_password("not base64!", &KEY), Err(KayaError::Base64));
}

#[test]
fn sealed_non_utf8_is_rejected() {
    let nonce = [5u8; 12];
    let sealing = LessSafeKey::new(UnboundKey::new(&AES_256_GCM, &KEY).unwrap());
    let mut in_out = vec![0xffu8, 0xfe, 0x80];
    sealing
        .seal_in_place_append_tag(Nonce::assume_unique_for_key(nonce), Aad::empty(), &mut in_out)
        .unwrap();
    let mut raw = nonce.to_vec();
    raw.extend(in_out);
    let blob = base64::engine::general_purpose::STANDARD.encode(&raw);
    assert_eq!(
        decrypt_password(&blob, &KEY),
        Err(KayaError::Encryption(CryptoFailure::InvalidUtf8))
    );
}
