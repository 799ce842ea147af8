use vstd::prelude::*;
use vstd::utf8::*;

use crate::error::{CryptoFailure, KayaError};
use crate::vault::{
    base64_decode, base64_encode, base64_of, decrypt_password, encrypt_password, fill_random,
    is_blob_for, KEY_LEN, SEAL_MAX_LEN,
};

verus! {

/// The persisted settings record. The encrypted password is only meaningful
/// together with the key it was sealed under.
pub struct Settings {
    pub server: Option<String>,
    pub email: Option<String>,
    /// Base64 of nonce, ciphertext and tag.
    pub encrypted_password: Option<String>,
    /// Base64 of the 32-byte credential key.
    pub encryption_key: Option<String>,
}

/// What a sync cycle needs to talk to the server.
pub struct Credentials {
    pub server: String,
    pub email: String,
    pub password: String,
}

/// `s` stores `password` sealed under `key`, and `key` itself.
pub open spec fn holds_credentials(s: Settings, key: Seq<u8>, password: Seq<char>) -> bool {
    &&& key.len() == KEY_LEN
    &&& s.encryption_key matches Some(k) && k@ == base64_of(key)
    &&& s.encrypted_password matches Some(e) && is_blob_for(key, e@, password)
}

impl Default for Settings {
    /// The record used when no settings file exists: every field absent.
    fn default() -> (r: Settings)
        ensures
            r.server is None && r.email is None && r.encrypted_password is None
                && r.encryption_key is None,
    {
        Settings { server: None, email: None, encrypted_password: None, encryption_key: None }
    }
}

/// Builds the record for a settings update with the given credential key:
/// a password is stored sealed under the key together with the key; with no
/// password neither is stored.
pub fn settings_with_key(
    server: Option<String>,
    email: Option<String>,
    password: Option<String>,
    key: &[u8; 32],
) -> (r: Result<Settings, KayaError>)
    ensures
        r matches Ok(s) ==> {
            &&& s.server == server
            &&& s.email == email
            &&& password is None ==> s.encrypted_password is None && s.encryption_key is None
            &&& password matches Some(p) ==> holds_credentials(s, key@, p@)
        },
        password is None ==> r is Ok,
        password matches Some(p) && encode_utf8(p@).len() <= SEAL_MAX_LEN ==> r is Ok,
        r is Err ==> password is Some && r == Err::<Settings, KayaError>(
            KayaError::Encryption(CryptoFailure::SealFailed),
        ),
{
    match &password {
        Some(p) => match encrypt_password(p.as_str(), key) {
            Ok(e) => {
                let encoded_key = base64_encode(key.as_slice());
                Ok(
                    Settings {
                        server,
                        email,
                        encrypted_password: Some(e),
                        encryption_key: Some(encoded_key),
                    },
                )
            },
            Err(e) => Err(e),
        },
        None => Ok(Settings { server, email, encrypted_password: None, encryption_key: None }),
    }
}

/// Builds the record for a settings update under a freshly drawn key.
pub fn new_settings(server: Option<String>, email: Option<String>, password: Option<String>) -> (r:
    Result<Settings, KayaError>)
    ensures
        r matches Ok(s) ==> {
            &&& s.server == server
            &&& s.email == email
            &&& password is None ==> s.encrypted_password is None && s.encryption_key is None
            &&& password matches Some(p) ==> exists|key: Seq<u8>|
                #[trigger] holds_credentials(s, key, p@)
        },
        password is None ==> r is Ok,
        password matches Some(p) && encode_utf8(p@).len() <= SEAL_MAX_LEN ==> r is Ok,
        r is Err ==> password is Some && r == Err::<Settings, KayaError>(
            KayaError::Encryption(CryptoFailure::SealFailed),
        ),
{
    let mut key = [0u8; 32];
    fill_random(&mut key);
    let ghost pw = password;
    let r = settings_with_key(server, email, password, &key);
    proof {
        if r is Ok && pw is Some {
            assert(holds_credentials(r->Ok_0, key@, pw->Some_0@));
        }
    }
    r
}

/// Decodes a stored key, which must be base64 of exactly 32 bytes.
pub fn decode_key(text: &str) -> (r: Result<[u8; 32], KayaError>)
    ensures
        forall|b: Seq<u8>|
            #[trigger] base64_of(b) == text@ ==> if b.len() == KEY_LEN {
                r matches Ok(k) && k@ == b
            } else {
                r == Err::<[u8; 32], KayaError>(KayaError::Encryption(CryptoFailure::InvalidKeyLength))
            },
        r matches Ok(k) ==> base64_of(k@) == text@,
        (r == Err::<[u8; 32], KayaError>(KayaError::Base64)) <==> forall|b: Seq<u8>|
            #[trigger] base64_of(b) != text@,
        r matches Err(e) ==> e == KayaError::Base64 || e == KayaError::Encryption(
            CryptoFailure::InvalidKeyLength,
        ),
{
    let bytes = match base64_decode(text) {
        Some(b) => b,
        None => return Err(KayaError::Base64),
    };
    if bytes.len() != KEY_LEN {
        return Err(KayaError::Encryption(CryptoFailure::InvalidKeyLength));
    }
    let mut key = [0u8; 32];
    let mut i: usize = 0;
    while i < KEY_LEN
        invariant
            i <= KEY_LEN,
            bytes@.len() == KEY_LEN,
            forall|j: int| 0 <= j < i ==> key@[j] == bytes@[j],
        decreases KEY_LEN - i,
    {
        key[i] = bytes[i];
        i += 1;
    }
    assert(key@ =~= bytes@);
    Ok(key)
}

/// With both the sealed password and the key stored, a key text that is not
/// base64 is `Base64`, one that is not 32 bytes is `InvalidKeyLength`.
pub open spec fn stored_key_outcome<T>(s: Settings, r: Result<T, KayaError>) -> bool {
    let k = s.encryption_key->Some_0;
    &&& (forall|b: Seq<u8>| #[trigger] base64_of(b) != k@) ==> r == Err::<T, KayaError>(
        KayaError::Base64,
    )
    &&& forall|b: Seq<u8>|
        #[trigger] base64_of(b) == k@ && b.len() != KEY_LEN ==> r == Err::<T, KayaError>(
            KayaError::Encryption(CryptoFailure::InvalidKeyLength),
        )
}

/// The stored password in clear: absent unless both the sealed password and
/// the key are stored.
pub fn resolve_password(s: &Settings) -> (r: Result<Option<String>, KayaError>)
    ensures
        (s.encrypted_password is None || s.encryption_key is None) ==> r == Ok::<
            Option<String>,
            KayaError,
        >(None),
        forall|key: Seq<u8>, p: Seq<char>|
            #[trigger] holds_credentials(*s, key, p) ==> (r matches Ok(Some(x)) && x@ == p),
        r matches Ok(Some(x)) ==> exists|key: Seq<u8>| #[trigger] holds_credentials(*s, key, x@),
        r matches Ok(None) ==> s.encrypted_password is None || s.encryption_key is None,
        s.encrypted_password is Some && s.encryption_key is Some ==> stored_key_outcome(
            *s,
            r,
        ),
{
    match (&s.encrypted_password, &s.encryption_key) {
        (Some(enc), Some(key_text)) => {
            let key = match decode_key(key_text.as_str()) {
                Ok(k) => k,
                Err(e) => return Err(e),
            };
            proof {
                assert forall|kb: Seq<u8>, p: Seq<char>| #[trigger]
                    holds_credentials(*s, kb, p) implies kb == key@ by {
                    assert(base64_of(kb) == key_text@);
                }
            }
            match decrypt_password(enc.as_str(), &key) {
                Ok(x) => {
                    let res: Result<Option<String>, KayaError> = Ok(Some(x));
                    assert(res matches Ok(Some(y)) ==> holds_credentials(*s, key@, y@));
                    res
                },
                Err(e) => Err(e),
            }
        },
        _ => Ok(None),
    }
}

/// The credentials of a sync cycle: absent, and the cycle skipped, unless a
/// server, an email and a resolvable password are all stored.
pub fn sync_credentials(s: &Settings) -> (r: Result<Option<Credentials>, KayaError>)
    ensures
        (s.server is None || s.email is None || s.encrypted_password is None
            || s.encryption_key is None) ==> r matches Ok(None),
        forall|key: Seq<u8>, p: Seq<char>|
            #[trigger] holds_credentials(*s, key, p) && s.server is Some && s.email is Some ==> (
            r matches Ok(Some(c)) && c.password@ == p),
        r matches Ok(Some(c)) ==> s.server == Some(c.server) && s.email == Some(c.email) && exists|
            key: Seq<u8>,
        | #[trigger] holds_credentials(*s, key, c.password@),
        r matches Ok(None) ==> s.server is None || s.email is None || s.encrypted_password is None
            || s.encryption_key is None,
        s.server is Some && s.email is Some && s.encrypted_password is Some && s.encryption_key is Some
            ==> stored_key_outcome(*s, r),
{
    let server = match &s.server {
        Some(v) => v.clone(),
        None => return Ok(None),
    };
    let email = match &s.email {
        Some(v) => v.clone(),
        None => return Ok(None),
    };
    match resolve_password(s) {
        Ok(Some(password)) => {
            let ghost pw = password@;
            let res: Result<Option<Credentials>, KayaError> = Ok(
                Some(Credentials { server, email, password }),
            );
            assert(exists|key: Seq<u8>| #[trigger] holds_credentials(*s, key, pw));
            assert(res matches Ok(Some(c)) ==> c.password@ == pw);
            res
        },
        Ok(None) => Ok(None),
        Err(e) => Err(e),
    }
}

} // verus!
