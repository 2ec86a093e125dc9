use m65_field_jacket::name::{
    EnvSecret, EnvSecretName, FileSecret, FileSecretName, Identity, IdentityName, NameError, NameRules, Pocket,
    PocketName,
};

#[test]
fn pocket_name_accepts_slug() {
    let n = PocketName::parse("shared-2").unwrap();
    assert_eq!(n.as_str(), "shared-2");
}

#[test]
fn pocket_name_rejects_empty() {
    assert_eq!(PocketName::parse(""), Err(NameError::Empty));
}

#[test]
fn pocket_name_rejects_uppercase() {
    assert_eq!(PocketName::parse("Shared"), Err(NameError::Charset));
}

#[test]
fn pocket_name_length_limit() {
    let ok = "a".repeat(64);
    assert!(PocketName::parse(&ok).is_ok());
    let long = "a".repeat(65);
    assert_eq!(PocketName::parse(&long), Err(NameError::TooLong { max: 64 }));
}

#[test]
fn identity_name_rules() {
    assert!(IdentityName::parse("default").is_ok());
    assert_eq!(IdentityName::parse("me_too"), Err(NameError::Charset));
    assert_eq!(Identity::max_len(), 64);
    assert_eq!(Identity::kind(), "identity");
}

#[test]
fn env_name_rules() {
    assert!(EnvSecretName::parse("API_KEY").is_ok());
    assert!(EnvSecretName::parse("_x9").is_ok());
    assert_eq!(EnvSecretName::parse("9LIVES"), Err(NameError::LeadingDigit));
    assert_eq!(EnvSecretName::parse("API-KEY"), Err(NameError::Charset));
    assert_eq!(EnvSecret::max_len(), 256);
    assert_eq!(EnvSecret::kind(), "env secret");
}

#[test]
fn env_name_length_counts_bytes() {
    let ok = "A".repeat(256);
    assert!(EnvSecretName::parse(&ok).is_ok());
    let long = "A".repeat(257);
    assert_eq!(EnvSecretName::parse(&long), Err(NameError::TooLong { max: 256 }));
}

#[test]
fn file_name_rules() {
    assert!(FileSecretName::parse("id_rsa.pub").is_ok());
    assert!(FileSecretName::parse("ünïcode file").is_ok());
    assert_eq!(FileSecretName::parse("a/b"), Err(NameError::ForbiddenChar { c: '/' }));
    assert_eq!(FileSecretName::parse("a\\b"), Err(NameError::ForbiddenChar { c: '\\' }));
    assert_eq!(FileSecretName::parse("a\0b"), Err(NameError::ForbiddenChar { c: '\0' }));
    assert_eq!(FileSecretName::parse("a\nb"), Err(NameError::ControlChar));
    assert_eq!(FileSecretName::parse("a\u{85}b"), Err(NameError::ControlChar));
    assert_eq!(FileSecret::kind(), "file secret");
}

#[test]
fn file_name_first_offender_decides() {
    assert_eq!(FileSecretName::parse("a\n/b"), Err(NameError::ControlChar));
    assert_eq!(FileSecretName::parse("a/\nb"), Err(NameError::ForbiddenChar { c: '/' }));
}

#[test]
fn name_length_limit_is_in_bytes() {
    // 129 two-byte characters: 258 bytes.
    let long = "é".repeat(129);
    assert_eq!(FileSecretName::parse(&long), Err(NameError::TooLong { max: 256 }));
}

#[test]
fn validate_matches_parse() {
    assert_eq!(Pocket::validate("abc"), Ok(()));
    assert_eq!(Pocket::validate("a b"), Err(NameError::Charset));
    assert_eq!(Pocket::kind(), "pocket");
    assert_eq!(Pocket::max_len(), 64);
}

#[test]
fn name_reparses_to_itself() {
    let n = FileSecretName::parse("config.toml").unwrap();
    let again = FileSecretName::parse(n.as_str()).unwrap();
    assert_eq!(again, n);
    assert_eq!(n.duplicate(), n);
}
