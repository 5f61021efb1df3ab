use safepass::cipher::{create_key, decrypt_text, encrypt_text, is_usable_key, opened};
use safepass::error::VaultError;

const KEY: &str = "cw_0x689RpI-jtRR7oE8h_eQsKImvJapLeSbXpwF4e4=";
const TOKEN: &str = "gAAAAAAdwJ6wAAECAwQFBgcICQoLDA0ODy021cpGVWKZ_eEwCGM4BLLF_5CV9dOPmrhuVUPgJobwOz7JcbmrR64jVmpU4IwqDA==";

#[test]
fn round_trip_gives_the_secret_back() {
    let key = create_key();
    for secret in ["hunter2", "", "pä$$ wörd with spaces", "a much longer secret than one block of the cipher"] {
        let token = encrypt_text(secret, &key).unwrap();
        assert_eq!(decrypt_text(&token, &key), Ok(secret.as_bytes().to_vec()));
    }
}

#[test]
fn known_token_opens_to_hello() {
    assert_eq!(decrypt_text(TOKEN, KEY), Ok(b"hello".to_vec()));
}

#[test]
fn token_is_not_the_plaintext() {
    let token = encrypt_text("hunter2", KEY).unwrap();
    assert_ne!(token, "hunter2");
    assert!(!token.contains("hunter2"));
    assert_eq!(decrypt_text(&token, KEY), Ok(b"hunter2".to_vec()));
}

#[test]
fn wrong_key_is_rejected() {
    let k1 = create_key();
    let k2 = create_key();
    assert_ne!(k1, k2);
    let token = encrypt_text("hunter2", &k1).unwrap();
    assert_eq!(decrypt_text(&token, &k2), Err(VaultError::DecryptError));
    assert_eq!(decrypt_text(TOKEN, &k1), Err(VaultError::DecryptError));
}

#[test]
fn corrupted_token_is_rejected() {
    let token = encrypt_text("hunter2", KEY).unwrap();
    let n = token.len();
    for at in [0, 1, 12, 20, n / 2, n - 10] {
        let mut bytes = token.clone().into_bytes();
        bytes[at] = if bytes[at] == b'A' { b'B' } else { b'A' };
        let damaged = String::from_utf8(bytes).unwrap();
        assert_eq!(decrypt_text(&damaged, KEY), Err(VaultError::DecryptError));
    }
}

#[test]
fn malformed_token_is_rejected_without_panic() {
    for token in ["", "%%%%", "not a token", "gAAAAA", "\u{0}"] {
        assert_eq!(decrypt_text(token, KEY), Err(VaultError::DecryptError));
    }
}

#[test]
fn text_that_is_no_key_seals_and_opens_nothing() {
    for key in ["", "axxx", "not a key", "cw_0x689RpI-jtRR7oE8h_eQsKImvJapLeSbXpw"] {
        assert!(!is_usable_key(key));
        assert_eq!(encrypt_text("hunter2", key), None);
        assert_eq!(decrypt_text(TOKEN, key), Err(VaultError::DecryptError));
    }
}

#[test]
fn fresh_keys_are_usable_and_differ() {
    let k1 = create_key();
    let k2 = create_key();
    assert!(is_usable_key(&k1));
    assert!(is_usable_key(&k2));
    assert!(is_usable_key(KEY));
    assert_ne!(k1, k2);
    assert_eq!(k1.len(), 44);
}

#[test]
fn two_tokens_of_one_secret_differ() {
    let a = encrypt_text("hunter2", KEY).unwrap();
    let b = encrypt_text("hunter2", KEY).unwrap();
    assert_ne!(a, b);
}

#[test]
fn padding_of_the_key_is_optional() {
    let bare = "cw_0x689RpI-jtRR7oE8h_eQsKImvJapLeSbXpwF4e4";
    assert!(is_usable_key(bare));
    assert_eq!(decrypt_text(TOKEN, bare), Ok(b"hello".to_vec()));
    let token = encrypt_text("hunter2", KEY).unwrap();
    assert_eq!(decrypt_text(&token, bare), Ok(b"hunter2".to_vec()));
}

#[test]
fn refusal_of_the_cipher_becomes_decrypt_error() {
    assert_eq!(opened(Ok(vec![1, 2, 3])), Ok(vec![1, 2, 3]));
    assert_eq!(opened(Ok(vec![])), Ok(vec![]));
    assert_eq!(opened(Err(fernet::DecryptionError)), Err(VaultError::DecryptError));
}

#[test]
fn token_is_longer_than_the_secret() {
    let long = "x".repeat(1000);
    let wide = "é🔓".repeat(40);
    for secret in ["", "a", "hunter2", "exactly sixteen!", long.as_str(), wide.as_str()] {
        let token = encrypt_text(secret, KEY).unwrap();
        assert!(token.chars().count() >= 100);
        assert!(token.chars().count() > secret.len());
        assert_ne!(token, secret);
    }
    assert_eq!(encrypt_text("", KEY).unwrap().len(), 100);
    assert_eq!(encrypt_text("exactly sixteen!", KEY).unwrap().len(), 120);
}
