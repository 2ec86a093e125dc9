use m65_field_jacket::config::{default_ttl, Config, DEFAULT_SESSION_TTL};
use m65_field_jacket::error::MfjError;

#[test]
fn new_config_has_the_default_lifetime() {
    let c = Config::new("me".to_owned());
    assert_eq!(c.default_identity, "me");
    assert_eq!(c.session_ttl_seconds, 28800);
    assert_eq!(default_ttl(), 28800);
    assert_eq!(DEFAULT_SESSION_TTL, 8 * 60 * 60);
}

#[test]
fn require_needs_a_config() {
    assert_eq!(Config::require(None).unwrap_err(), MfjError::NoConfig);
    let c = Config::require(Some(Config::new("me".to_owned()))).unwrap();
    assert_eq!(c.default_identity, "me");
}

#[test]
fn config_after_identity_init() {
    let first = Config::after_identity_init(None, "me".to_owned(), false).unwrap();
    assert_eq!(first.default_identity, "me");
    assert_eq!(first.session_ttl_seconds, 28800);
    let existing = Config { default_identity: "me".to_owned(), session_ttl_seconds: 60 };
    assert!(Config::after_identity_init(Some(existing), "work".to_owned(), false).is_none());
    let existing = Config { default_identity: "me".to_owned(), session_ttl_seconds: 60 };
    let changed = Config::after_identity_init(Some(existing), "work".to_owned(), true).unwrap();
    assert_eq!(changed.default_identity, "work");
    assert_eq!(changed.session_ttl_seconds, 60);
}

#[test]
fn default_identity_check() {
    let c = Config::new("me".to_owned());
    assert!(c.is_default("me"));
    assert!(!c.is_default("you"));
    let c = c.with_default("you".to_owned());
    assert!(c.is_default("you"));
}
