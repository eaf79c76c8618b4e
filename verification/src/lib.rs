//! Credential vault codec: seals a secret under a master passphrase into an
//! opaque printable token and opens such a token again, together with a
//! passphrase strength policy and the plain configuration data that the
//! surrounding tunnel tool persists.

use vstd::prelude::*;

pub mod aeadenc;
pub mod config;
pub mod crypto;
pub mod hexcode;
pub mod kdf;
pub mod textenc;
pub mod wire;

verus! {

/// The failure kinds of the credential codec.
///
/// `FormatError` marks a token that is structurally corrupt, `DerivationError`
/// a salt or parameter set that the key-derivation function rejects,
/// `AuthenticationError` a failed integrity check (wrong passphrase or
/// tampered token), and `EncryptionError` an internal cipher fault.
#[derive(Debug, Clone, Copy, PartialEq, Eq, Structural)]
pub enum CryptoError {
    FormatError,
    DerivationError,
    AuthenticationError,
    EncryptionError,
}

impl CryptoError {
    /// A short description of the failure, for user-facing messages.
    pub fn message(&self) -> (r: &'static str)
        ensures
            (match *self {
                CryptoError::FormatError => r@ == "invalid token format"@,
                CryptoError::DerivationError => r@ == "key derivation failed"@,
                CryptoError::AuthenticationError => r@ == "wrong passphrase or corrupted token"@,
                CryptoError::EncryptionError => r@ == "encryption failed"@,
            }),
    {
        match self {
            CryptoError::FormatError => "invalid token format",
            CryptoError::DerivationError => "key derivation failed",
            CryptoError::AuthenticationError => "wrong passphrase or corrupted token",
            CryptoError::EncryptionError => "encryption failed",
        }
    }
}

} // verus!
