//! Key derivation: the shape of salt strings, the trusted salt generator,
//! and the trusted call into the Argon2 password-hashing function.

use argon2::PasswordHasher;
use vstd::prelude::*;

use crate::textenc::all_ascii;
use crate::wire::{no_semi, SEMI};

verus! {

/// A byte allowed in a salt string by the PHC format: `[a-zA-Z0-9/+.-]`.
pub open spec fn is_salt_char_byte(b: u8) -> bool {
    ||| (97 <= b && b <= 122)
    ||| (65 <= b && b <= 90)
    ||| (48 <= b && b <= 57)
    ||| b == 47
    ||| b == 43
    ||| b == 46
    ||| b == 45
}

/// A byte of the B64 alphabet `[A-Za-z0-9+/]` used by generated salts.
pub open spec fn is_b64_byte(b: u8) -> bool {
    ||| (97 <= b && b <= 122)
    ||| (65 <= b && b <= 90)
    ||| (48 <= b && b <= 57)
    ||| b == 43
    ||| b == 47
}

/// A salt string that the PHC salt parser accepts: 4 to 64 bytes, all from
/// the PHC salt character set.
pub open spec fn salt_str_ok(s: Seq<u8>) -> bool {
    4 <= s.len() <= 64 && forall|i: int| 0 <= i < s.len() ==> is_salt_char_byte(#[trigger] s[i])
}

/// The shape of a freshly generated salt: the B64 encoding of 16 random
/// bytes, which is exactly 22 characters of the B64 alphabet.
pub open spec fn fresh_salt(s: Seq<u8>) -> bool {
    s.len() == 22 && forall|i: int| 0 <= i < s.len() ==> is_b64_byte(#[trigger] s[i])
}

/// A fresh salt is an acceptable salt string, is delimiter-free, and is ASCII.
pub proof fn lemma_fresh_salt_shape(s: Seq<u8>)
    requires
        fresh_salt(s),
    ensures
        salt_str_ok(s),
        no_semi(s),
        all_ascii(s),
{
    assert(forall|i: int| 0 <= i < s.len() ==> is_b64_byte(#[trigger] s[i]) && s[i] != SEMI
        && s[i] < 128);
}

/// The key that Argon2 (default algorithm, version and parameters) derives
/// from a password and the given salt string; a pure function of the two.
pub uninterp spec fn argon2_key(pass: Seq<u8>, salt: Seq<u8>) -> Seq<u8>;

/// Whether Argon2 accepts the given salt string: its B64 payload must decode
/// and the decoded salt must be at least 8 bytes; a pure function of the salt.
pub uninterp spec fn kdf_salt_ok(salt: Seq<u8>) -> bool;

/// How the key-derivation step can fail: the salt string itself is not a
/// well-formed PHC salt, or the hashing function rejects its input.
pub(crate) enum KdfFailure {
    SaltFormat,
    Rejected,
}

/// Relies on `argon2::password_hash::SaltString::generate`, which B64-encodes
/// 16 bytes from the operating system's secure random source into 22
/// characters of the B64 alphabet; such a salt is always accepted by Argon2.
#[verifier::external_body]
pub(crate) fn generate_salt() -> (r: Vec<u8>)
    ensures
        fresh_salt(r@),
        kdf_salt_ok(r@),
{
    let s = argon2::password_hash::SaltString::generate(&mut rand_core::OsRng);
    s.as_str().as_bytes().to_vec()
}

/// Relies on `argon2::password_hash::SaltString::from_b64` (accepts exactly
/// the strings of `salt_str_ok`) and `argon2::Argon2::hash_password` with the
/// default parameters (succeeds exactly when the salt's B64 payload decodes
/// to at least 8 bytes and the password is at most `u32::MAX` bytes, and then
/// produces a 32-byte hash determined by password and salt alone).
#[verifier::external_body]
pub(crate) fn derive_key(master: &Vec<u8>, salt: &Vec<u8>) -> (r: Result<Vec<u8>, KdfFailure>)
    ensures
        (match r {
            Ok(k) => k@ == argon2_key(master@, salt@) && k@.len() == 32 && salt_str_ok(salt@)
                && kdf_salt_ok(salt@) && master@.len() <= 0xFFFF_FFFF,
            Err(e) => !(salt_str_ok(salt@) && kdf_salt_ok(salt@) && master@.len() <= 0xFFFF_FFFF)
                && ((e is SaltFormat) <==> !salt_str_ok(salt@)),
        }),
{
    let text = core::str::from_utf8(salt).map_err(|_| KdfFailure::SaltFormat)?;
    let parsed = argon2::password_hash::SaltString::from_b64(text).map_err(|_| {
        KdfFailure::SaltFormat
    })?;
    let hashed = argon2::Argon2::default().hash_password(master, &parsed).map_err(|_| {
        KdfFailure::Rejected
    })?;
    let output = hashed.hash.ok_or(KdfFailure::Rejected)?;
    Ok(output.as_bytes().to_vec())
}

} // verus!
