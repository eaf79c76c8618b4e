use rush_tunnel::crypto::{decrypt_password, encrypt_password, encrypt_password_pair};
use rush_tunnel::CryptoError;

#[test]
fn test_password_encryption_decryption() {
    let master_password = "test_master_password";
    let password = "test_password";

    let encrypted_password =
        encrypt_password(master_password, password).expect("Password encryption failed");
    let decrypted_password =
        decrypt_password(master_password, &encrypted_password).expect("Password decryption failed");

    assert_eq!(password, decrypted_password);
}

#[test]
fn test_incorrect_master_password() {
    let master_password = "test_master_password";
    let wrong_master_password = "wrong_password";
    let password = "test_password";

    let encrypted_password =
        encrypt_password(master_password, password).expect("Password encryption failed");
    let decryption_result = decrypt_password(wrong_master_password, &encrypted_password);

    assert!(decryption_result.is_err());
}

#[test]
fn wrong_passphrase_is_authentication_error() {
    let token = encrypt_password("one master passphrase", "secret").unwrap();
    let outcome = decrypt_password("another master passphrase", &token);
    assert_eq!(outcome, Err(CryptoError::AuthenticationError));
}

#[test]
fn two_seals_of_same_input_differ() {
    let first = encrypt_password("same master", "same secret").unwrap();
    let second = encrypt_password("same master", "same secret").unwrap();
    assert_ne!(first, second);
}

#[test]
fn round_trip_empty_plaintext() {
    let token = encrypt_password("a master passphrase", "").unwrap();
    assert_eq!(decrypt_password("a master passphrase", &token).unwrap(), "");
}

#[test]
fn round_trip_unicode_plaintext() {
    let secret = "p\u{e4}ss\u{2713}w\u{f6}rd";
    let token = encrypt_password("ma\u{df}ter pa\u{df}phrase", secret).unwrap();
    assert_eq!(
        decrypt_password("ma\u{df}ter pa\u{df}phrase", &token).unwrap(),
        secret
    );
}

#[test]
fn token_is_printable_hex() {
    let token = encrypt_password("a master passphrase", "secret").unwrap();
    assert!(!token.is_empty());
    assert!(token.chars().all(|c| c.is_ascii_hexdigit()));
    assert!(hex::decode(&token).is_ok());
}

#[test]
fn nonce_fields_of_two_tokens_differ() {
    let nonce_field = |token: &str| -> String {
        let text = String::from_utf8(hex::decode(token).unwrap()).unwrap();
        text.split(';').nth(1).unwrap().to_string()
    };
    let first = encrypt_password("same master", "same secret").unwrap();
    let second = encrypt_password("same master", "same secret").unwrap();
    assert_ne!(nonce_field(&first), nonce_field(&second));
}

#[test]
fn outer_hex_is_accepted_in_either_case() {
    let token = encrypt_password("a master passphrase", "secret").unwrap();
    let upper = token.to_uppercase();
    assert_eq!(decrypt_password("a master passphrase", &upper).unwrap(), "secret");
}

#[test]
fn end_to_end_scenario() {
    let token = encrypt_password("Correct-Passphrase-1", "s3cr3t").unwrap();
    assert_eq!(decrypt_password("Correct-Passphrase-1", &token).unwrap(), "s3cr3t");
    assert_eq!(
        decrypt_password("Wrong-Passphrase", &token),
        Err(CryptoError::AuthenticationError)
    );
}

/// Rebuilds a valid token with the byte at `pos` of its ciphertext field
/// flipped.
fn with_flipped_ciphertext_byte(token: &str, pos: usize) -> String {
    let inner = hex::decode(token).unwrap();
    let text = String::from_utf8(inner).unwrap();
    let parts: Vec<&str> = text.split(';').collect();
    assert_eq!(parts.len(), 3);
    let mut ct = hex::decode(parts[2]).unwrap();
    ct[pos] ^= 0x01;
    let rebuilt = format!("{};{};{}", parts[0], parts[1], hex::encode(ct));
    hex::encode(rebuilt)
}

#[test]
fn tampered_ciphertext_is_rejected() {
    let token = encrypt_password("a master passphrase", "tamper me").unwrap();
    let inner = hex::decode(&token).unwrap();
    let text = String::from_utf8(inner).unwrap();
    let ct_len = hex::decode(text.split(';').nth(2).unwrap()).unwrap().len();

    let first = with_flipped_ciphertext_byte(&token, 0);
    assert_eq!(
        decrypt_password("a master passphrase", &first),
        Err(CryptoError::AuthenticationError)
    );
    let last = with_flipped_ciphertext_byte(&token, ct_len - 1);
    assert_eq!(
        decrypt_password("a master passphrase", &last),
        Err(CryptoError::AuthenticationError)
    );
}

#[test]
fn malformed_tokens_are_format_errors() {
    assert_eq!(
        decrypt_password("any master", "not-hex!!"),
        Err(CryptoError::FormatError)
    );
    let one_delimiter = hex::encode("a;b");
    assert_eq!(
        decrypt_password("any master", &one_delimiter),
        Err(CryptoError::FormatError)
    );
    let bad_salt = hex::encode("bad salt!;00;00");
    assert_eq!(
        decrypt_password("any master", &bad_salt),
        Err(CryptoError::FormatError)
    );
    let odd_nonce_hex = hex::encode("AAAAAAAAAAAAAAAAAAAAAA;0;00");
    assert_eq!(
        decrypt_password("any master", &odd_nonce_hex),
        Err(CryptoError::FormatError)
    );
}

#[test]
fn short_nonce_is_format_error() {
    let ten_byte_nonce = hex::encode("AAAAAAAAAAAAAAAAAAAAAA;00010203040506070809;00112233");
    assert_eq!(
        decrypt_password("any master", &ten_byte_nonce),
        Err(CryptoError::FormatError)
    );
}

#[test]
fn undecodable_salt_is_derivation_error() {
    let short_salt = hex::encode("AAAA;000102030405060708090a0b;00112233");
    assert_eq!(
        decrypt_password("any master", &short_salt),
        Err(CryptoError::DerivationError)
    );
}

#[test]
fn password_pair_sealed_for_strong_master() {
    let (enc1, enc2) = encrypt_password_pair("StrongP@ssword123", "first secret", "second secret")
        .expect("pair encryption failed");
    let token = enc1.expect("first slot empty");
    assert!(enc2.is_some());
    assert_eq!(
        decrypt_password("StrongP@ssword123", &token).unwrap(),
        "first secret"
    );
}

#[test]
fn password_pair_empty_for_weak_master() {
    let pair = encrypt_password_pair("weak", "first secret", "second secret").unwrap();
    assert_eq!(pair, (None, None));
}

#[test]
fn error_messages_name_the_failure() {
    assert_eq!(CryptoError::FormatError.message(), "invalid token format");
    assert_eq!(CryptoError::DerivationError.message(), "key derivation failed");
    assert_eq!(
        CryptoError::AuthenticationError.message(),
        "wrong passphrase or corrupted token"
    );
    assert_eq!(CryptoError::EncryptionError.message(), "encryption failed");
}
