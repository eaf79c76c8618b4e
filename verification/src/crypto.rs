//! The credential vault codec: `encrypt_password` seals a secret under a
//! master passphrase into an opaque hex token, `decrypt_password` recovers
//! it, and `is_password_strong` is the strength gate for master passphrases.
//!
//! A token is `hex( salt ";" hex(nonce) ";" hex(ciphertext_and_tag) )`: the
//! salt in the key-derivation function's own B64 encoding, a fresh 12-byte
//! nonce, and the ciphertext with its 16-byte integrity tag, all printable.

use vstd::prelude::*;
use vstd::string::{StrSliceExecFns, StringSliceAdditionalSpecFns};
use vstd::utf8::{
    decode_utf8_encode_utf8, encode_utf8, encode_utf8_decode_utf8, encode_utf8_valid_utf8,
    is_ascii_chars,
};

use crate::aeadenc::{aead_decrypt, aead_encrypt, cipher_seal, fill_random, NONCE_LEN, PT_MAX};
use crate::hexcode::{
    hex_bytes_of, hex_decode_bytes, hex_decoded, hex_encode_bytes, hex_text_ok,
    lemma_hex_digit_plain, lemma_hex_round_trip,
};
use crate::kdf::{
    argon2_key, derive_key, fresh_salt, generate_salt, is_salt_char_byte, kdf_salt_ok,
    lemma_fresh_salt_shape, salt_str_ok, KdfFailure,
};
use crate::textenc::{
    all_ascii, bytes_to_string, char_is_lowercase, char_is_uppercase, lemma_ascii_utf8,
    unicode_lowercase, unicode_uppercase,
};
use crate::wire::{
    field0, field1, field2, has_three_fields, lemma_fields_are, no_semi, split_fields, splits_as,
    SEMI,
};
pub use crate::CryptoError;

verus! {

/// The inner delimited text of a token, as bytes: the salt string, the hex
/// of the nonce, and the hex of the ciphertext, joined by `;`.
pub open spec fn joined_fields(salt: Seq<u8>, nonce: Seq<u8>, ct: Seq<u8>) -> Seq<u8> {
    salt + seq![SEMI] + hex_bytes_of(nonce) + seq![SEMI] + hex_bytes_of(ct)
}

/// The token bytes produced for master passphrase bytes `mb`, plaintext
/// bytes `pb`, and the given salt and nonce: the hex of the joined fields.
pub open spec fn token_bytes_of(mb: Seq<u8>, salt: Seq<u8>, nonce: Seq<u8>, pb: Seq<u8>) -> Seq<
    u8,
> {
    hex_bytes_of(joined_fields(salt, nonce, cipher_seal(argon2_key(mb, salt), nonce, pb)))
}

/// The token bytes `tb` are a sealing of the plaintext bytes `pb` under the
/// master passphrase bytes `mb`, with the named salt and nonce.
pub open spec fn sealed_with_parts(
    mb: Seq<u8>,
    tb: Seq<u8>,
    pb: Seq<u8>,
    salt: Seq<u8>,
    nonce: Seq<u8>,
) -> bool {
    &&& fresh_salt(salt)
    &&& kdf_salt_ok(salt)
    &&& nonce.len() == 12
    &&& mb.len() <= 0xFFFF_FFFF
    &&& pb.len() < PT_MAX
    &&& cipher_seal(argon2_key(mb, salt), nonce, pb).len() == pb.len() + 16
    &&& tb == token_bytes_of(mb, salt, nonce, pb)
}

/// The token bytes `tb` are a sealing of the plaintext bytes `pb` under the
/// master passphrase bytes `mb`, for some fresh salt and nonce.
pub open spec fn sealed_with(mb: Seq<u8>, tb: Seq<u8>, pb: Seq<u8>) -> bool {
    exists|salt: Seq<u8>, nonce: Seq<u8>| sealed_with_parts(mb, tb, pb, salt, nonce)
}

/// The token bytes pass every structural check of `decrypt_password`: outer
/// hex, three `;`-fields, a well-formed salt string, and hex nonce and
/// ciphertext fields.
pub open spec fn parse_ok(tb: Seq<u8>) -> bool {
    &&& hex_text_ok(tb)
    &&& has_three_fields(hex_decoded(tb))
    &&& salt_str_ok(field0(hex_decoded(tb)))
    &&& hex_text_ok(field1(hex_decoded(tb)))
    &&& hex_text_ok(field2(hex_decoded(tb)))
}

/// The salt field of a token (meaningful under `parse_ok`).
pub open spec fn token_salt(tb: Seq<u8>) -> Seq<u8> {
    field0(hex_decoded(tb))
}

/// The nonce bytes of a token (meaningful under `parse_ok`).
pub open spec fn token_nonce(tb: Seq<u8>) -> Seq<u8> {
    hex_decoded(field1(hex_decoded(tb)))
}

/// The ciphertext-with-tag bytes of a token (meaningful under `parse_ok`).
pub open spec fn token_ct(tb: Seq<u8>) -> Seq<u8> {
    hex_decoded(field2(hex_decoded(tb)))
}

/// The structural checks pass and the key-derivation step accepts the salt
/// and the passphrase length.
pub open spec fn derivable(mb: Seq<u8>, tb: Seq<u8>) -> bool {
    parse_ok(tb) && kdf_salt_ok(token_salt(tb)) && mb.len() <= 0xFFFF_FFFF
}

/// Everything up to the cipher step is in order: the token also carries a
/// nonce of the cipher's required length.
pub open spec fn token_ready(mb: Seq<u8>, tb: Seq<u8>) -> bool {
    derivable(mb, tb) && token_nonce(tb).len() == 12
}

/// The key that `decrypt_password` derives for a token.
pub open spec fn token_key(mb: Seq<u8>, tb: Seq<u8>) -> Seq<u8> {
    argon2_key(mb, token_salt(tb))
}

/// No plaintext of the matching length seals to the token's ciphertext under
/// the derived key and nonce: the integrity check must reject the token.
pub open spec fn auth_fails(mb: Seq<u8>, tb: Seq<u8>) -> bool {
    forall|q: Seq<u8>|
        q.len() + 16 == token_ct(tb).len() && q.len() < PT_MAX ==> token_ct(tb) != cipher_seal(
            token_key(mb, tb),
            token_nonce(tb),
            q,
        )
}

/// Round trip, on the wire model: a token sealed from plaintext bytes `pb`
/// passes every structural check, carries exactly the salt, nonce and
/// ciphertext it was built from, and its integrity check cannot reject the
/// passphrase that sealed it.
pub proof fn lemma_sealed_token_parses(
    mb: Seq<u8>,
    tb: Seq<u8>,
    pb: Seq<u8>,
    salt: Seq<u8>,
    nonce: Seq<u8>,
)
    requires
        sealed_with_parts(mb, tb, pb, salt, nonce),
    ensures
        parse_ok(tb),
        token_salt(tb) == salt,
        token_nonce(tb) == nonce,
        token_ct(tb) == cipher_seal(argon2_key(mb, salt), nonce, pb),
        token_ready(mb, tb),
        token_key(mb, tb) == argon2_key(mb, salt),
        !auth_fails(mb, tb),
{
    let ct = cipher_seal(argon2_key(mb, salt), nonce, pb);
    let joined = joined_fields(salt, nonce, ct);
    lemma_hex_round_trip(joined);
    lemma_hex_round_trip(nonce);
    lemma_hex_round_trip(ct);
    lemma_fresh_salt_shape(salt);
    assert(no_semi(hex_bytes_of(nonce))) by {
        assert forall|i: int| 0 <= i < hex_bytes_of(nonce).len() implies hex_bytes_of(nonce)[i]
            != SEMI by {
            lemma_hex_digit_plain(hex_bytes_of(nonce)[i]);
        }
    }
    assert(no_semi(hex_bytes_of(ct))) by {
        assert forall|i: int| 0 <= i < hex_bytes_of(ct).len() implies hex_bytes_of(ct)[i]
            != SEMI by {
            lemma_hex_digit_plain(hex_bytes_of(ct)[i]);
        }
    }
    assert(splits_as(joined, salt, hex_bytes_of(nonce), hex_bytes_of(ct)));
    lemma_fields_are(joined, salt, hex_bytes_of(nonce), hex_bytes_of(ct));
    assert(!auth_fails(mb, tb)) by {
        assert(pb.len() + 16 == token_ct(tb).len() && pb.len() < PT_MAX && token_ct(tb)
            == cipher_seal(token_key(mb, tb), token_nonce(tb), pb));
    }
}

/// Checks that `s` is a well-formed PHC salt string: 4 to 64 bytes, all from
/// the PHC salt character set.
fn check_salt_bytes(s: &Vec<u8>) -> (r: bool)
    ensures
        r == salt_str_ok(s@),
{
    let n = s.len();
    if n < 4 || n > 64 {
        return false;
    }
    let mut i: usize = 0;
    while i < n
        invariant
            0 <= i <= n == s@.len(),
            forall|k: int| 0 <= k < i ==> is_salt_char_byte(#[trigger] s@[k]),
        decreases n - i,
    {
        let b = s[i];
        let ok = (97 <= b && b <= 122) || (65 <= b && b <= 90) || (48 <= b && b <= 57) || b == 47
            || b == 43 || b == 46 || b == 45;
        if !ok {
            return false;
        }
        i = i + 1;
    }
    true
}

/// Seals `password` under `master`: derives a fresh 32-byte key from the
/// passphrase with a random salt, encrypts under a random nonce, and encodes
/// salt, nonce and ciphertext as a single hex token.
///
/// Succeeds for every input the machine can hold short of the cipher's and
/// the derivation function's own size limits; the token it returns is a
/// sealing of the plaintext (`sealed_with`), from which `decrypt_password`
/// recovers exactly the plaintext again.
pub fn encrypt_password(master: &str, password: &str) -> (r: Result<String, CryptoError>)
    ensures
        (match r {
            Ok(t) => sealed_with(master.spec_bytes(), encode_utf8(t@), password.spec_bytes())
                && is_ascii_chars(t@),
            Err(e) => (e == CryptoError::DerivationError && master.spec_bytes().len()
                > 0xFFFF_FFFF) || (e == CryptoError::EncryptionError && master.spec_bytes().len()
                <= 0xFFFF_FFFF && password.spec_bytes().len() >= PT_MAX),
        }),
        master.spec_bytes().len() <= 0xFFFF_FFFF && password.spec_bytes().len() < PT_MAX
            ==> r is Ok,
{
    let salt = generate_salt();
    let mb = master.as_bytes_vec();
    let key = match derive_key(&mb, &salt) {
        Ok(k) => k,
        Err(_) => {
            proof {
                lemma_fresh_salt_shape(salt@);
            }
            return Err(CryptoError::DerivationError);
        },
    };
    let mut nonce: Vec<u8> = Vec::new();
    let mut i: usize = 0;
    while i < NONCE_LEN
        invariant
            nonce@.len() == i,
            i <= NONCE_LEN,
        decreases NONCE_LEN - i,
    {
        nonce.push(0u8);
        i = i + 1;
    }
    fill_random(&mut nonce);
    let pb = password.as_bytes_vec();
    let ct = match aead_encrypt(&key, &nonce, &pb) {
        Ok(c) => c,
        Err(_) => {
            return Err(CryptoError::EncryptionError);
        },
    };
    let nonce_hex = hex_encode_bytes(&nonce);
    let ct_hex = hex_encode_bytes(&ct);
    let mut plain = salt;
    plain.push(SEMI);
    let mut nonce_hex_in = nonce_hex;
    plain.append(&mut nonce_hex_in);
    plain.push(SEMI);
    let mut ct_hex_in = ct_hex;
    plain.append(&mut ct_hex_in);
    proof {
        assert(plain@ =~= joined_fields(salt@, nonce@, ct@));
    }
    let outer = hex_encode_bytes(&plain);
    proof {
        lemma_hex_round_trip(plain@);
        assert(all_ascii(outer@)) by {
            assert forall|k: int| 0 <= k < outer@.len() implies outer@[k] < 128 by {
                lemma_hex_digit_plain(outer@[k]);
            }
        }
        lemma_ascii_utf8(outer@);
    }
    let ghost outer_bytes = outer@;
    match bytes_to_string(outer) {
        Ok(t) => {
            proof {
                decode_utf8_encode_utf8(outer_bytes);
                assert(encode_utf8(t@) == outer_bytes);
                assert(sealed_with_parts(
                    master.spec_bytes(),
                    encode_utf8(t@),
                    password.spec_bytes(),
                    salt@,
                    nonce@,
                ));
            }
            Ok(t)
        },
        Err(_) => {
            proof {
                assert(false);
            }
            Err(CryptoError::EncryptionError)
        },
    }
}

/// Opens a token produced by `encrypt_password`: undoes the outer hex
/// encoding, splits the three fields, re-derives the key from `master` and
/// the token's salt, and runs authenticated decryption.
///
/// Structural damage of any kind is reported as `FormatError`; a salt the
/// derivation function rejects as `DerivationError`; and a failed integrity
/// check -- a wrong passphrase or a tampered ciphertext, deliberately not
/// distinguished -- as `AuthenticationError`. A plaintext is returned only
/// if the ciphertext is exactly its sealing under the derived key, and a
/// token sealed from some plaintext opens to exactly that plaintext.
pub fn decrypt_password(master: &str, token: &str) -> (r: Result<String, CryptoError>)
    ensures
        ({
            let mb = master.spec_bytes();
            let tb = token.spec_bytes();
            &&& (!parse_ok(tb) ==> r == Err::<String, CryptoError>(CryptoError::FormatError))
            &&& (parse_ok(tb) && !(kdf_salt_ok(token_salt(tb)) && mb.len() <= 0xFFFF_FFFF) ==> r
                == Err::<String, CryptoError>(CryptoError::DerivationError))
            &&& (derivable(mb, tb) && token_nonce(tb).len() != 12 ==> r == Err::<
                String,
                CryptoError,
            >(CryptoError::FormatError))
            &&& (token_ready(mb, tb) && auth_fails(mb, tb) ==> r == Err::<String, CryptoError>(
                CryptoError::AuthenticationError,
            ))
            &&& (token_ready(mb, tb) && !auth_fails(mb, tb) ==> (r is Ok || r == Err::<
                String,
                CryptoError,
            >(CryptoError::FormatError)))
            &&& (r matches Ok(p) ==> token_ready(mb, tb) && encode_utf8(p@).len() + 16
                == token_ct(tb).len() && token_ct(tb) == cipher_seal(
                token_key(mb, tb),
                token_nonce(tb),
                encode_utf8(p@),
            ))
            &&& (forall|pc: Seq<char>|
                sealed_with(mb, tb, encode_utf8(pc)) ==> (r matches Ok(p) && p@ == pc))
        }),
{
    let ghost mb = master.spec_bytes();
    let ghost tb = token.spec_bytes();
    let token_b: Vec<u8> = token.as_bytes_vec();
    let plain = match hex_decode_bytes(&token_b) {
        Ok(v) => v,
        Err(_) => {
            proof {
                assert forall|pc: Seq<char>| !sealed_with(mb, tb, encode_utf8(pc)) by {
                    if sealed_with(mb, tb, encode_utf8(pc)) {
                        let (salt, nonce) = choose|salt: Seq<u8>, nonce: Seq<u8>|
                            sealed_with_parts(mb, tb, encode_utf8(pc), salt, nonce);
                        lemma_sealed_token_parses(mb, tb, encode_utf8(pc), salt, nonce);
                    }
                }
            }
            return Err(CryptoError::FormatError);
        },
    };
    let parts = match split_fields(&plain) {
        Some(t) => t,
        None => {
            proof {
                assert forall|pc: Seq<char>| !sealed_with(mb, tb, encode_utf8(pc)) by {
                    if sealed_with(mb, tb, encode_utf8(pc)) {
                        let (salt, nonce) = choose|salt: Seq<u8>, nonce: Seq<u8>|
                            sealed_with_parts(mb, tb, encode_utf8(pc), salt, nonce);
                        lemma_sealed_token_parses(mb, tb, encode_utf8(pc), salt, nonce);
                    }
                }
            }
            return Err(CryptoError::FormatError);
        },
    };
    let (salt_b, nonce_hex, ct_hex) = parts;
    proof {
        lemma_fields_are(plain@, salt_b@, nonce_hex@, ct_hex@);
    }
    if !check_salt_bytes(&salt_b) {
        proof {
            assert forall|pc: Seq<char>| !sealed_with(mb, tb, encode_utf8(pc)) by {
                if sealed_with(mb, tb, encode_utf8(pc)) {
                    let (salt, nonce) = choose|salt: Seq<u8>, nonce: Seq<u8>|
                        sealed_with_parts(mb, tb, encode_utf8(pc), salt, nonce);
                    lemma_sealed_token_parses(mb, tb, encode_utf8(pc), salt, nonce);
                }
            }
        }
        return Err(CryptoError::FormatError);
    }
    let nonce = match hex_decode_bytes(&nonce_hex) {
        Ok(v) => v,
        Err(_) => {
            proof {
                assert forall|pc: Seq<char>| !sealed_with(mb, tb, encode_utf8(pc)) by {
                    if sealed_with(mb, tb, encode_utf8(pc)) {
                        let (salt, nonce2) = choose|salt: Seq<u8>, nonce2: Seq<u8>|
                            sealed_with_parts(mb, tb, encode_utf8(pc), salt, nonce2);
                        lemma_sealed_token_parses(mb, tb, encode_utf8(pc), salt, nonce2);
                        lemma_hex_round_trip(nonce2);
                    }
                }
            }
            return Err(CryptoError::FormatError);
        },
    };
    let ct = match hex_decode_bytes(&ct_hex) {
        Ok(v) => v,
        Err(_) => {
            proof {
                assert forall|pc: Seq<char>| !sealed_with(mb, tb, encode_utf8(pc)) by {
                    if sealed_with(mb, tb, encode_utf8(pc)) {
                        let (salt, nonce2) = choose|salt: Seq<u8>, nonce2: Seq<u8>|
                            sealed_with_parts(mb, tb, encode_utf8(pc), salt, nonce2);
                        lemma_sealed_token_parses(mb, tb, encode_utf8(pc), salt, nonce2);
                    }
                }
            }
            return Err(CryptoError::FormatError);
        },
    };
    let mb_v = master.as_bytes_vec();
    let key = match derive_key(&mb_v, &salt_b) {
        Ok(k) => k,
        Err(e) => {
            match e {
                KdfFailure::SaltFormat => {
                    proof {
                        assert(false);
                    }
                    return Err(CryptoError::FormatError);
                },
                KdfFailure::Rejected => {
                    proof {
                        assert forall|pc: Seq<char>| !sealed_with(mb, tb, encode_utf8(pc)) by {
                            if sealed_with(mb, tb, encode_utf8(pc)) {
                                let (salt, nonce2) = choose|salt: Seq<u8>, nonce2: Seq<u8>|
                                    sealed_with_parts(mb, tb, encode_utf8(pc), salt, nonce2);
                                lemma_sealed_token_parses(mb, tb, encode_utf8(pc), salt, nonce2);
                            }
                        }
                    }
                    return Err(CryptoError::DerivationError);
                },
            }
        },
    };
    if nonce.len() != NONCE_LEN {
        proof {
            assert forall|pc: Seq<char>| !sealed_with(mb, tb, encode_utf8(pc)) by {
                if sealed_with(mb, tb, encode_utf8(pc)) {
                    let (salt, nonce2) = choose|salt: Seq<u8>, nonce2: Seq<u8>|
                        sealed_with_parts(mb, tb, encode_utf8(pc), salt, nonce2);
                    lemma_sealed_token_parses(mb, tb, encode_utf8(pc), salt, nonce2);
                }
            }
        }
        return Err(CryptoError::FormatError);
    }
    let ptb = match aead_decrypt(&key, &nonce, &ct) {
        Ok(p) => p,
        Err(_) => {
            proof {
                assert(auth_fails(mb, tb));
                assert forall|pc: Seq<char>| !sealed_with(mb, tb, encode_utf8(pc)) by {
                    if sealed_with(mb, tb, encode_utf8(pc)) {
                        let (salt, nonce2) = choose|salt: Seq<u8>, nonce2: Seq<u8>|
                            sealed_with_parts(mb, tb, encode_utf8(pc), salt, nonce2);
                        lemma_sealed_token_parses(mb, tb, encode_utf8(pc), salt, nonce2);
                    }
                }
            }
            return Err(CryptoError::AuthenticationError);
        },
    };
    let ghost ptb_v = ptb@;
    match bytes_to_string(ptb) {
        Ok(s) => {
            proof {
                decode_utf8_encode_utf8(ptb_v);
                assert(!auth_fails(mb, tb)) by {
                    assert(ptb_v.len() + 16 == token_ct(tb).len() && ptb_v.len() < PT_MAX
                        && token_ct(tb) == cipher_seal(token_key(mb, tb), token_nonce(tb), ptb_v));
                }
                assert forall|pc: Seq<char>|
                    sealed_with(mb, tb, encode_utf8(pc)) implies s@ == pc by {
                    let (salt, nonce2) = choose|salt: Seq<u8>, nonce2: Seq<u8>|
                        sealed_with_parts(mb, tb, encode_utf8(pc), salt, nonce2);
                    lemma_sealed_token_parses(mb, tb, encode_utf8(pc), salt, nonce2);
                    assert(ptb_v == encode_utf8(pc));
                    encode_utf8_decode_utf8(pc);
                }
            }
            Ok(s)
        },
        Err(_) => {
            proof {
                assert(!auth_fails(mb, tb)) by {
                    assert(ptb_v.len() + 16 == token_ct(tb).len() && ptb_v.len() < PT_MAX
                        && token_ct(tb) == cipher_seal(token_key(mb, tb), token_nonce(tb), ptb_v));
                }
                assert forall|pc: Seq<char>| !sealed_with(mb, tb, encode_utf8(pc)) by {
                    if sealed_with(mb, tb, encode_utf8(pc)) {
                        let (salt, nonce2) = choose|salt: Seq<u8>, nonce2: Seq<u8>|
                            sealed_with_parts(mb, tb, encode_utf8(pc), salt, nonce2);
                        lemma_sealed_token_parses(mb, tb, encode_utf8(pc), salt, nonce2);
                        assert(ptb_v == encode_utf8(pc));
                        encode_utf8_valid_utf8(pc);
                    }
                }
            }
            Err(CryptoError::FormatError)
        },
    }
}

/// The ASCII code of a decimal digit.
pub open spec fn is_ascii_digit_char(c: char) -> bool {
    48 <= (c as u32) && (c as u32) <= 57
}

/// An ASCII punctuation character: one of the four printable ASCII ranges
/// between the digits, letters and control characters (codes 33..47, 58..64,
/// 91..96 and 123..126).
pub open spec fn is_ascii_punct_char(c: char) -> bool {
    ||| (33 <= (c as u32) && (c as u32) <= 47)
    ||| (58 <= (c as u32) && (c as u32) <= 64)
    ||| (91 <= (c as u32) && (c as u32) <= 96)
    ||| (123 <= (c as u32) && (c as u32) <= 126)
}

/// The strength policy for master passphrases: at least 12 bytes of UTF-8,
/// and at least one uppercase letter, one lowercase letter, one ASCII digit
/// and one ASCII punctuation character.
pub open spec fn strong_password(s: Seq<char>) -> bool {
    &&& encode_utf8(s).len() >= 12
    &&& exists|i: int| 0 <= i < s.len() && unicode_uppercase(#[trigger] s[i])
    &&& exists|i: int| 0 <= i < s.len() && unicode_lowercase(#[trigger] s[i])
    &&& exists|i: int| 0 <= i < s.len() && is_ascii_digit_char(#[trigger] s[i])
    &&& exists|i: int| 0 <= i < s.len() && is_ascii_punct_char(#[trigger] s[i])
}

/// Decides the strength policy for a candidate master passphrase: true
/// exactly when `strong_password` holds of its characters.
pub fn is_password_strong(password: &str) -> (r: bool)
    ensures
        r == strong_password(password@),
{
    let byte_view = password.as_bytes_vec();
    let len_ok = byte_view.len() >= 12;
    let n = password.unicode_len();
    let mut has_upper = false;
    let mut has_lower = false;
    let mut has_digit = false;
    let mut has_punct = false;
    let mut i: usize = 0;
    while i < n
        invariant
            0 <= i <= n == password@.len(),
            has_upper == exists|j: int| 0 <= j < i && unicode_uppercase(#[trigger] password@[j]),
            has_lower == exists|j: int| 0 <= j < i && unicode_lowercase(#[trigger] password@[j]),
            has_digit == exists|j: int| 0 <= j < i && is_ascii_digit_char(#[trigger] password@[j]),
            has_punct == exists|j: int| 0 <= j < i && is_ascii_punct_char(#[trigger] password@[j]),
        decreases n - i,
    {
        let c = password.get_char(i);
        if char_is_uppercase(c) {
            has_upper = true;
        }
        if char_is_lowercase(c) {
            has_lower = true;
        }
        let u = c as u32;
        if 48 <= u && u <= 57 {
            has_digit = true;
        }
        if (33 <= u && u <= 47) || (58 <= u && u <= 64) || (91 <= u && u <= 96) || (123 <= u && u
            <= 126) {
            has_punct = true;
        }
        i = i + 1;
    }
    len_ok && has_upper && has_lower && has_digit && has_punct
}

/// The policy check applied before passwords are saved: when the master
/// passphrase is strong enough both secrets are sealed under it, otherwise
/// neither is and both slots stay empty.
pub fn encrypt_password_pair(master: &str, first: &str, second: &str) -> (r: Result<
    (Option<String>, Option<String>),
    CryptoError,
>)
    ensures
        ({
            let mb = master.spec_bytes();
            &&& (!strong_password(master@) ==> r == Ok::<(Option<String>, Option<String>), CryptoError>((None, None)))
            &&& (strong_password(master@) ==> (match r {
                Ok(p) => (p.0 matches Some(t1) && sealed_with(
                    mb,
                    encode_utf8(t1@),
                    first.spec_bytes(),
                )) && (p.1 matches Some(t2) && sealed_with(
                    mb,
                    encode_utf8(t2@),
                    second.spec_bytes(),
                )),
                Err(e) => (e == CryptoError::DerivationError && mb.len() > 0xFFFF_FFFF) || (e
                    == CryptoError::EncryptionError && mb.len() <= 0xFFFF_FFFF && (first.spec_bytes().len()
                    >= PT_MAX || second.spec_bytes().len() >= PT_MAX)),
            }))
        }),
{
    if !is_password_strong(master) {
        return Ok((None, None));
    }
    let t1 = match encrypt_password(master, first) {
        Ok(t) => t,
        Err(e) => {
            return Err(e);
        },
    };
    let t2 = match encrypt_password(master, second) {
        Ok(t) => t,
        Err(e) => {
            return Err(e);
        },
    };
    Ok((Some(t1), Some(t2)))
}

} // verus!
