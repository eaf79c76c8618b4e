//! Authenticated encryption: the trusted calls into ChaCha20-Poly1305 and
//! the secure random source that supplies nonces.

use chacha20poly1305::aead::{Aead, NewAead};
use vstd::prelude::*;

verus! {

/// The number of nonce bytes the cipher requires.
pub const NONCE_LEN: usize = 12;

/// The largest plaintext the cipher accepts: 64-byte blocks with a 32-bit
/// block counter.
pub const PT_MAX: u64 = 0x3F_FFFF_FFC0;

/// The ciphertext-with-tag that ChaCha20-Poly1305 produces from a 32-byte
/// key, a 12-byte nonce and a plaintext; a pure function of the three.
pub uninterp spec fn cipher_seal(key: Seq<u8>, nonce: Seq<u8>, pt: Seq<u8>) -> Seq<u8>;

/// Relies on `chacha20poly1305::ChaCha20Poly1305::encrypt`: with a valid key
/// and nonce it fails exactly when the plaintext overflows the cipher's
/// 32-bit block counter, and otherwise returns the ciphertext with the
/// 16-byte tag appended.
#[verifier::external_body]
pub(crate) fn aead_encrypt(key: &Vec<u8>, nonce: &Vec<u8>, pt: &Vec<u8>) -> (r: Result<
    Vec<u8>,
    (),
>)
    requires
        key@.len() == 32,
        nonce@.len() == 12,
    ensures
        (match r {
            Ok(ct) => ct@ == cipher_seal(key@, nonce@, pt@) && ct@.len() == pt@.len() + 16
                && pt@.len() < PT_MAX,
            Err(_) => pt@.len() >= PT_MAX,
        }),
{
    let cipher = chacha20poly1305::ChaCha20Poly1305::new(chacha20poly1305::Key::from_slice(key));
    cipher.encrypt(chacha20poly1305::Nonce::from_slice(nonce), pt.as_slice()).map_err(|_| ())
}

/// Relies on `chacha20poly1305::ChaCha20Poly1305::decrypt`: the Poly1305 tag
/// is a deterministic function of key, nonce and ciphertext, and the
/// ChaCha20 keystream is applied by exclusive-or, so decryption accepts a
/// ciphertext exactly when it is the sealing of some plaintext of the
/// matching length, and then returns that plaintext.
#[verifier::external_body]
pub(crate) fn aead_decrypt(key: &Vec<u8>, nonce: &Vec<u8>, ct: &Vec<u8>) -> (r: Result<
    Vec<u8>,
    (),
>)
    requires
        key@.len() == 32,
        nonce@.len() == 12,
    ensures
        (match r {
            Ok(pt) => ct@ == cipher_seal(key@, nonce@, pt@) && pt@.len() + 16 == ct@.len()
                && pt@.len() < PT_MAX && (forall|q: Seq<u8>|
                ct@ == cipher_seal(key@, nonce@, q) && q.len() + 16 == ct@.len() ==> q == pt@),
            Err(_) => forall|q: Seq<u8>|
                q.len() + 16 == ct@.len() && q.len() < PT_MAX ==> ct@ != cipher_seal(
                    key@,
                    nonce@,
                    q,
                ),
        }),
{
    let cipher = chacha20poly1305::ChaCha20Poly1305::new(chacha20poly1305::Key::from_slice(key));
    cipher.decrypt(chacha20poly1305::Nonce::from_slice(nonce), ct.as_slice()).map_err(|_| ())
}

/// Relies on `rand_core::OsRng::fill_bytes`: it fills the buffer in place
/// from the operating system's secure random source; nothing can be said of
/// the bytes it writes.
#[verifier::external_body]
pub(crate) fn fill_random(buf: &mut Vec<u8>)
    ensures
        final(buf)@.len() == old(buf)@.len(),
{
    rand_core::RngCore::fill_bytes(&mut rand_core::OsRng, buf.as_mut_slice());
}

} // verus!
