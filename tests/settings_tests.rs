use kaya_sync::error::{CryptoFailure, KayaError};
use kaya_sync::settings::{
    decode_key, new_settings, resolve_password, settings_with_key, sync_credentials, Settings,
};

fn some(s: &str) -> Option<String> {
    Some(s.to_string())
}

#[test]
fn stored_password_resolves_to_secret() {
    let s = new_settings(some("https://k.example"), some("me@x.org"), some("secret")).unwrap();
    assert_eq!(s.server, some("https://k.example"));
    assert!(s.encrypted_password.is_some() && s.encryption_key.is_some());
    assert_eq!(resolve_password(&s).unwrap(), some("secret"));
    let c = sync_credentials(&s).unwrap().unwrap();
    assert_eq!(c.server, "https://k.example");
    assert_eq!(c.email, "me@x.org");
    assert_eq!(c.password, "secret");
}

#[test]
fn each_update_draws_a_new_key() {
    let a = new_settings(None, None, some("secret")).unwrap();
    let b = new_settings(None, None, some("secret")).unwrap();
    assert_ne!(a.encryption_key, b.encryption_key);
}

#[test]
fn no_password_stores_neither_field() {
    let s = settings_with_key(some("h"), some("e"), None, &[3u8; 32]).unwrap();
    assert_eq!(s.encrypted_password, None);
    assert_eq!(s.encryption_key, None);
    assert_eq!(s.server, some("h"));
    assert_eq!(resolve_password(&s), Ok(None));
    assert!(sync_credentials(&s).unwrap().is_none());
}

#[test]
fn missing_server_or_email_skips_cycle() {
    let s = new_settings(None, some("e"), some("p")).unwrap();
    assert!(sync_credentials(&s).unwrap().is_none());
    let t = new_settings(some("h"), None, some("p")).unwrap();
    assert!(sync_credentials(&t).unwrap().is_none());
    assert!(sync_credentials(&Settings::default()).unwrap().is_none());
}

#[test]
fn bad_stored_key_is_reported() {
    assert_eq!(
        decode_key("AAAA"),
        Err(KayaError::Encryption(CryptoFailure::InvalidKeyLength))
    );
    assert_eq!(decode_key("%%"), Err(KayaError::Base64));
    let key = decode_key("AwMDAwMDAwMDAwMDAwMDAwMDAwMDAwMDAwMDAwMDAwM=").unwrap();
    assert_eq!(key, [3u8; 32]);
    let k = settings_with_key(some("h"), some("e"), some("p"), &[3u8; 32]).unwrap();
    assert_eq!(
        k.encryption_key,
        some("AwMDAwMDAwMDAwMDAwMDAwMDAwMDAwMDAwMDAwMDAwM=")
    );
    let mut s = new_settings(some("h"), some("e"), some("p")).unwrap();
    s.encryption_key = some("AAAA");
    assert_eq!(
        sync_credentials(&s).err(),
        Some(KayaError::Encryption(CryptoFailure::InvalidKeyLength))
    );
    assert_eq!(
        resolve_password(&s),
        Err(KayaError::Encryption(CryptoFailure::InvalidKeyLength))
    );
    let mut t = new_settings(some("h"), some("e"), some("p")).unwrap();
    t.encrypted_password = some("AAAAAAAAAAAAAAAAAAAAAAAAAAAAAAAAAAAAAAAA");
    assert_eq!(
        sync_credentials(&t).err(),
        Some(KayaError::Encryption(CryptoFailure::OpenFailed))
    );
}
