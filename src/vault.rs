use base64::Engine;
use vstd::prelude::*;
use vstd::slice::slice_subrange;
use vstd::utf8::*;

use crate::error::{CryptoFailure, KayaError};

verus! {

/// Bytes of nonce stored in front of every blob.
pub const NONCE_LEN: usize = 12;

/// Bytes of a credential key (AES-256).
pub const KEY_LEN: usize = 32;

/// Bytes of the authentication tag appended by the AEAD.
pub const TAG_LEN: usize = 16;

/// The longest plaintext AES-256-GCM seals: (2^39 - 256) / 8 bytes.
pub const SEAL_MAX_LEN: u64 = 68719476704;

/// The AES-256-GCM sealing (ciphertext followed by tag, empty associated data)
/// of `plaintext` under `key` and `nonce`.
pub uninterp spec fn aes_gcm_sealed(key: Seq<u8>, nonce: Seq<u8>, plaintext: Seq<u8>) -> Seq<u8>;

/// The padded standard-alphabet base64 text of `bytes`.
pub uninterp spec fn base64_of(bytes: Seq<u8>) -> Seq<char>;

/// Relies on ring's `LessSafeKey::seal_in_place_append_tag` with AES_256_GCM
/// and empty associated data: on success the buffer holds the ciphertext,
/// as long as the plaintext, followed by the 16-byte tag. A 32-byte key is
/// always accepted, and sealing fails only on inputs longer than
/// `MAX_IN_OUT_LEN`.
#[verifier::external_body]
fn aead_seal(key: &[u8; 32], nonce: &[u8; 12], plaintext: &[u8]) -> (r: Option<Vec<u8>>)
    ensures
        plaintext@.len() <= SEAL_MAX_LEN ==> r is Some,
        r matches Some(c) ==> c@ == aes_gcm_sealed(key@, nonce@, plaintext@) && c@.len()
            == plaintext@.len() + 16,
{
    let unbound = ring::aead::UnboundKey::new(&ring::aead::AES_256_GCM, key).ok()?;
    let sealing = ring::aead::LessSafeKey::new(unbound);
    let mut in_out = plaintext.to_vec();
    let n = ring::aead::Nonce::assume_unique_for_key(*nonce);
    sealing.seal_in_place_append_tag(n, ring::aead::Aad::empty(), &mut in_out).ok()?;
    Some(in_out)
}

/// Relies on ring's `LessSafeKey::open_in_place` with AES_256_GCM and empty
/// associated data: it returns the plaintext exactly when the input is the
/// sealing of that plaintext under the same key and nonce (GCM decryption and
/// tag computation are deterministic), and fails otherwise.
#[verifier::external_body]
fn aead_open(key: &[u8; 32], nonce: &[u8; 12], sealed: &[u8]) -> (r: Option<Vec<u8>>)
    ensures
        forall|p: Seq<u8>| sealed@ == #[trigger] aes_gcm_sealed(key@, nonce@, p) ==> r.unwrap()@ == p && r is Some,
        r matches Some(v) ==> sealed@ == aes_gcm_sealed(key@, nonce@, v@) && sealed@.len()
            == v@.len() + 16,
{
    let unbound = ring::aead::UnboundKey::new(&ring::aead::AES_256_GCM, key).ok()?;
    let opening = ring::aead::LessSafeKey::new(unbound);
    let mut in_out = sealed.to_vec();
    let n = ring::aead::Nonce::assume_unique_for_key(*nonce);
    let plain = opening.open_in_place(n, ring::aead::Aad::empty(), &mut in_out).ok()?;
    Some(plain.to_vec())
}

/// Relies on base64's `STANDARD.encode`: the padded standard-alphabet text.
#[verifier::external_body]
pub(crate) fn base64_encode(bytes: &[u8]) -> (r: String)
    ensures
        r@ == base64_of(bytes@),
{
    base64::engine::general_purpose::STANDARD.encode(bytes)
}

/// Relies on base64's `STANDARD.decode`, whose configuration requires
/// canonical padding and zero trailing bits: it accepts exactly the texts
/// that `STANDARD.encode` produces, and returns the bytes they encode.
#[verifier::external_body]
pub(crate) fn base64_decode(text: &str) -> (r: Option<Vec<u8>>)
    ensures
        forall|b: Seq<u8>| #[trigger] base64_of(b) == text@ ==> r is Some && r.unwrap()@ == b,
        r matches Some(v) ==> base64_of(v@) == text@,
{
    base64::engine::general_purpose::STANDARD.decode(text).ok()
}

/// Relies on `String::from_utf8`: it accepts exactly valid UTF-8 and keeps
/// the characters it encodes.
#[verifier::external_body]
fn string_from_utf8(bytes: Vec<u8>) -> (r: Option<String>)
    ensures
        r is Some <==> valid_utf8(bytes@),
        r matches Some(s) ==> s@ == decode_utf8(bytes@),
{
    String::from_utf8(bytes).ok()
}

/// Relies on rand's `thread_rng().fill_bytes`, a cryptographically secure
/// generator: every byte of the buffer is overwritten with random data.
#[verifier::external_body]
pub(crate) fn fill_random<const N: usize>(buf: &mut [u8; N]) {
    rand::RngCore::fill_bytes(&mut rand::thread_rng(), buf)
}

/// The stored text of `password` sealed under `key` with `nonce`:
/// base64 of nonce, ciphertext and tag.
pub open spec fn sealed_blob(key: Seq<u8>, nonce: Seq<u8>, password: Seq<char>) -> Seq<char> {
    base64_of(nonce + aes_gcm_sealed(key, nonce, encode_utf8(password)))
}

/// `blob` is a sealing of `password` under `key` with some 12-byte nonce.
pub open spec fn is_blob_for(key: Seq<u8>, blob: Seq<char>, password: Seq<char>) -> bool {
    exists|nonce: Seq<u8>|
        nonce.len() == NONCE_LEN && aes_gcm_sealed(key, nonce, encode_utf8(password)).len()
            == encode_utf8(password).len() + TAG_LEN && blob == #[trigger] sealed_blob(
            key,
            nonce,
            password,
        )
}

/// Seals `password` under `key` with the given `nonce`.
pub fn encrypt_with_nonce(password: &str, key: &[u8; 32], nonce: &[u8; 12]) -> (r: Result<
    String,
    KayaError,
>)
    ensures
        r matches Ok(s) ==> s@ == sealed_blob(key@, nonce@, password@) && is_blob_for(
            key@,
            s@,
            password@,
        ),
        r matches Err(e) ==> e == KayaError::Encryption(CryptoFailure::SealFailed),
        encode_utf8(password@).len() <= SEAL_MAX_LEN ==> r is Ok,
{
    let plain = password.as_bytes();
    let sealed = match aead_seal(key, nonce, plain) {
        Some(c) => c,
        None => return Err(KayaError::Encryption(CryptoFailure::SealFailed)),
    };
    let mut out: Vec<u8> = Vec::new();
    let mut i: usize = 0;
    while i < NONCE_LEN
        invariant
            i <= NONCE_LEN,
            out@ == nonce@.subrange(0, i as int),
        decreases NONCE_LEN - i,
    {
        out.push(nonce[i]);
        i += 1;
    }
    let ghost framed = nonce@ + sealed@;
    let mut tail = sealed;
    out.append(&mut tail);
    assert(out@ =~= framed);
    let s = base64_encode(out.as_slice());
    assert(is_blob_for(key@, s@, password@)) by {
        assert(s@ == sealed_blob(key@, nonce@, password@));
    }
    Ok(s)
}

/// Seals `password` under `key` with a fresh random nonce.
pub fn encrypt_password(password: &str, key: &[u8; 32]) -> (r: Result<String, KayaError>)
    ensures
        r matches Ok(s) ==> is_blob_for(key@, s@, password@),
        r matches Err(e) ==> e == KayaError::Encryption(CryptoFailure::SealFailed),
        encode_utf8(password@).len() <= SEAL_MAX_LEN ==> r is Ok,
{
    let mut nonce = [0u8; 12];
    fill_random(&mut nonce);
    encrypt_with_nonce(password, key, &nonce)
}

/// Opens a stored blob with `key`.
///
/// Whenever `blob` was produced by sealing some password under `key`, the
/// result is that password; any successful result is authentic in that sense.
/// An authentic sealing of bytes that are not UTF-8 is rejected.
pub fn decrypt_password(blob: &str, key: &[u8; 32]) -> (r: Result<String, KayaError>)
    ensures
        forall|p: Seq<char>| #[trigger]
            is_blob_for(key@, blob@, p) ==> (r matches Ok(s) && s@ == p),
        r matches Ok(s) ==> is_blob_for(key@, blob@, s@),
        forall|nonce: Seq<u8>, b: Seq<u8>|
            nonce.len() == NONCE_LEN && !valid_utf8(b) && aes_gcm_sealed(key@, nonce, b).len()
                == b.len() + TAG_LEN && blob@ == base64_of(nonce + #[trigger] aes_gcm_sealed(
                key@,
                nonce,
                b,
            )) ==> r == Err::<String, KayaError>(KayaError::Encryption(CryptoFailure::InvalidUtf8)),
        (r == Err::<String, KayaError>(KayaError::Base64)) <==> (forall|b: Seq<u8>|
            #[trigger] base64_of(b) != blob@),
        (r == Err::<String, KayaError>(KayaError::Encryption(CryptoFailure::TooShort))) <==> (
        exists|b: Seq<u8>| #[trigger] base64_of(b) == blob@ && b.len() < NONCE_LEN + TAG_LEN),
        r matches Err(e) ==> e == KayaError::Base64 || e == KayaError::Encryption(
            CryptoFailure::TooShort,
        ) || e == KayaError::Encryption(CryptoFailure::OpenFailed) || e == KayaError::Encryption(
            CryptoFailure::InvalidUtf8,
        ),
{
    let data = match base64_decode(blob) {
        Some(d) => d,
        None => return Err(KayaError::Base64),
    };
    if data.len() < NONCE_LEN + TAG_LEN {
        return Err(KayaError::Encryption(CryptoFailure::TooShort));
    }
    let mut nonce = [0u8; 12];
    let mut i: usize = 0;
    while i < NONCE_LEN
        invariant
            i <= NONCE_LEN,
            data@.len() >= NONCE_LEN + TAG_LEN,
            forall|j: int| 0 <= j < i ==> nonce@[j] == data@[j],
        decreases NONCE_LEN - i,
    {
        nonce[i] = data[i];
        i += 1;
    }
    assert(nonce@ =~= data@.subrange(0, NONCE_LEN as int));
    let sealed = slice_subrange(data.as_slice(), NONCE_LEN, data.len());
    assert(data@ =~= nonce@ + sealed@);
    let ghost dv = data@;
    proof {
        assert forall|p: Seq<char>| #[trigger] is_blob_for(key@, blob@, p) implies aes_gcm_sealed(
            key@,
            nonce@,
            encode_utf8(p),
        ) == sealed@ by {
            let n = choose|n: Seq<u8>|
                n.len() == NONCE_LEN && aes_gcm_sealed(key@, n, encode_utf8(p)).len()
                    == encode_utf8(p).len() + TAG_LEN && blob@ == #[trigger] sealed_blob(
                    key@,
                    n,
                    p,
                );
            let b = n + aes_gcm_sealed(key@, n, encode_utf8(p));
            assert(base64_of(b) == blob@);
            assert(dv == b);
            assert(nonce@ =~= b.subrange(0, NONCE_LEN as int));
            assert(n =~= b.subrange(0, NONCE_LEN as int));
            assert(sealed@ =~= b.subrange(NONCE_LEN as int, b.len() as int));
        }
    }
    proof {
        assert forall|n: Seq<u8>, b: Seq<u8>|
            n.len() == NONCE_LEN && !valid_utf8(b) && aes_gcm_sealed(key@, n, b).len() == b.len()
                + TAG_LEN && blob@ == base64_of(n + #[trigger] aes_gcm_sealed(
                key@,
                n,
                b,
            )) implies nonce@ == n && sealed@ == aes_gcm_sealed(key@, nonce@, b) by {
            let whole = n + aes_gcm_sealed(key@, n, b);
            assert(base64_of(whole) == blob@);
            assert(dv == whole);
            assert(n =~= whole.subrange(0, NONCE_LEN as int));
            assert(nonce@ =~= whole.subrange(0, NONCE_LEN as int));
            assert(sealed@ =~= whole.subrange(NONCE_LEN as int, whole.len() as int));
        }
    }
    let plain = match aead_open(key, &nonce, sealed) {
        Some(v) => v,
        None => return Err(KayaError::Encryption(CryptoFailure::OpenFailed)),
    };
    let ghost pv = plain@;
    let text = match string_from_utf8(plain) {
        Some(s) => {
            proof {
                assert forall|n: Seq<u8>, b: Seq<u8>|
                    n.len() == NONCE_LEN && !valid_utf8(b) && aes_gcm_sealed(key@, n, b).len()
                        == b.len() + TAG_LEN && blob@ == base64_of(n + #[trigger] aes_gcm_sealed(
                        key@,
                        n,
                        b,
                    )) implies false by {
                    assert(pv == b);
                }
            }
            s
        },
        None => {
            proof {
                assert forall|p: Seq<char>| #[trigger] is_blob_for(key@, blob@, p) implies false by {
                    encode_utf8_valid_utf8(p);
                }
            }
            return Err(KayaError::Encryption(CryptoFailure::InvalidUtf8));
        },
    };
    proof {
        decode_utf8_encode_utf8(pv);
        assert(blob@ == sealed_blob(key@, nonce@, text@));
        assert forall|p: Seq<char>| #[trigger] is_blob_for(key@, blob@, p) implies text@ == p by {
            encode_utf8_decode_utf8(p);
        }
    }
    Ok(text)
}

} // verus!
