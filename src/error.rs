use vstd::prelude::*;

verus! {

/// What went wrong in the cryptographic part of the vault.
#[derive(Debug, Clone, Copy, PartialEq, Eq)]
pub enum CryptoFailure {
    /// The AEAD refused to seal the plaintext.
    SealFailed,
    /// The decoded blob is shorter than a nonce and a tag.
    TooShort,
    /// The tag did not verify under the key and nonce.
    OpenFailed,
    /// The authenticated plaintext is not UTF-8.
    InvalidUtf8,
    /// A stored key does not decode to exactly 32 bytes.
    InvalidKeyLength,
}

/// A validation failure of an inbound request or frame.
#[derive(Debug, Clone, PartialEq, Eq)]
pub enum ConfigIssue {
    MissingFilename,
    MissingBase64,
    MissingText,
    UnknownContentType(String),
    UnknownMessage(String),
    InvalidMessageLength(u32),
    Invalid(String),
}

/// The closed set of error kinds of the agent.
#[derive(Debug, Clone, PartialEq, Eq)]
pub enum KayaError {
    Io(String),
    /// The stream ended inside a frame.
    UnexpectedEof,
    Json(String),
    Base64,
    Http(String),
    Config(ConfigIssue),
    Encryption(CryptoFailure),
}

} // verus!
