use rush_tunnel::crypto::is_password_strong;

#[test]
fn test_password_policy() {
    assert!(is_password_strong("StrongP@ssword123"));
    assert!(!is_password_strong("weak"));
}

#[test]
fn policy_requires_every_character_class() {
    assert!(!is_password_strong("alllowercase123!"));
    assert!(!is_password_strong("ALLUPPERCASE123!"));
    assert!(!is_password_strong("NoDigitsHere!!"));
    assert!(!is_password_strong("NOLOWERCASE99!!"));
}

#[test]
fn policy_length_is_counted_in_bytes() {
    assert!(!is_password_strong("Aa1!aaaaaaa"));
    assert!(is_password_strong("Aa1!aaaaaaaa"));
    assert!(is_password_strong("\u{c4}\u{c4}\u{e4}\u{e4}11!!"));
}

#[test]
fn policy_accepts_unicode_letter_classes() {
    assert!(is_password_strong("\u{e4}\u{e4}\u{e4}\u{e4}\u{e4}1!\u{c4}aaaa"));
}
