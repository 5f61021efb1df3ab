use safepass::error::VaultError;
use safepass::label::{display_label, parse_label, service_label};
use safepass::paths::{get_database_path, get_key_file_path};
use safepass::text::{chars_of, is_separator, is_valid_field, str_contains};

#[test]
fn valid_fields() {
    assert!(is_valid_field("github"));
    assert!(is_valid_field("bob@example.com"));
    assert!(is_valid_field("my_service"));
    assert!(is_valid_field("é"));
}

#[test]
fn invalid_fields() {
    assert!(!is_valid_field(""));
    assert!(!is_valid_field("my service"));
    assert!(!is_valid_field(" github"));
    assert!(!is_valid_field("github "));
    assert!(!is_valid_field("a\tb"));
    assert!(!is_valid_field("a\nb"));
    assert!(!is_valid_field("a\rb"));
    assert!(!is_valid_field("a\u{0C}b"));
    assert!(!is_valid_field(" "));
}

#[test]
fn separators() {
    for c in [' ', '\t', '\n', '\r', '\u{0C}', '\u{0B}', '\u{85}', '\u{A0}', '\u{1680}', '\u{2000}', '\u{2005}', '\u{200A}', '\u{2028}', '\u{2029}', '\u{202F}', '\u{205F}', '\u{3000}'] {
        assert!(is_separator(c));
    }
    for c in ['a', '_', '/', '0', '\u{08}', '\u{0E}', '\u{1F}', '\u{200B}', '\u{180E}', '\u{FEFF}', '\u{2060}', 'é', '🔓'] {
        assert!(!is_separator(c));
    }
}

#[test]
fn chars_of_text() {
    assert_eq!(chars_of("aé🔓"), vec!['a', 'é', '🔓']);
    assert_eq!(chars_of(""), Vec::<char>::new());
}

#[test]
fn substring_search_is_exact() {
    assert!(str_contains("github", "git"));
    assert!(str_contains("github", "hub"));
    assert!(str_contains("github", "github"));
    assert!(str_contains("github", ""));
    assert!(str_contains("", ""));
    assert!(!str_contains("github", "Git"));
    assert!(!str_contains("github", "githubs"));
    assert!(!str_contains("", "a"));
    assert!(!str_contains("aws", "git"));
    assert!(!str_contains("github", "g%b"));
    assert!(!str_contains("github", "g_thub"));
    assert!(str_contains("100%_sure", "%_"));
    assert!(str_contains("aab", "ab"));
}

#[test]
fn labels_are_rendered() {
    assert_eq!(service_label("github", "bob"), "github with username/email bob");
    assert_eq!(
        display_label("github", "bob", true),
        "github with username/email bob has password 🔓"
    );
    assert_eq!(
        display_label("github", "bob", false),
        "github with username/email bob has password 🔐"
    );
}

#[test]
fn labels_read_back() {
    let id = Some(("github".to_string(), "bob@example.com".to_string()));
    assert_eq!(parse_label(&service_label("github", "bob@example.com")), id);
    assert_eq!(parse_label(&display_label("github", "bob@example.com", true)), id);
    assert_eq!(parse_label(&display_label("github", "bob@example.com", false)), id);
    assert_eq!(
        parse_label("  one\ttwo \n three   four five"),
        Some(("one".to_string(), "four".to_string()))
    );
}

#[test]
fn short_labels_name_nothing() {
    assert_eq!(parse_label(""), None);
    assert_eq!(parse_label("   "), None);
    assert_eq!(parse_label("one two three"), None);
    assert_eq!(parse_label("one two three "), None);
}

#[test]
fn paths_below_home() {
    assert_eq!(get_key_file_path("/home/bob"), "/home/bob/safepass.key");
    assert_eq!(get_database_path("/home/bob"), "/home/bob/safepass.db3");
}

#[test]
fn messages_of_failures() {
    assert_eq!(VaultError::KeyAbsent.message(), "Security key is required to proceed");
    assert_eq!(VaultError::KeyRejected.message(), "Security key is not usable");
    assert_eq!(VaultError::DecryptError.message(), "Invalid security key");
    assert_eq!(VaultError::ValidationError.message(), "Spaces are not allowed");
    assert_eq!(VaultError::EmptyVault.message(), "Database is empty");
    assert_eq!(VaultError::EmptyResult.message(), "No service was found");
}

#[test]
fn separators_are_the_white_space_of_unicode() {
    let mut c = 0u32;
    while c <= 0x10FFFF {
        if let Some(ch) = char::from_u32(c) {
            assert_eq!(is_separator(ch), ch.is_whitespace());
        }
        c += 1;
    }
}

#[test]
fn fields_with_any_white_space_are_invalid() {
    assert!(!is_valid_field("my\u{A0}service"));
    assert!(!is_valid_field("my\u{0B}service"));
    assert!(!is_valid_field("my\u{3000}service"));
    assert!(!is_valid_field("\u{2028}"));
    assert!(!is_valid_field("bob\u{85}"));
    assert!(is_valid_field("my\u{200B}service"));
}

#[test]
fn labels_split_at_any_white_space() {
    assert_eq!(
        parse_label("one\u{A0}two\u{3000}three\u{0B}four"),
        Some(("one".to_string(), "four".to_string()))
    );
    assert_eq!(parse_label("one\u{A0}two three"), None);
}
