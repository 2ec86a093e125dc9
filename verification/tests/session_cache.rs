use m65_field_jacket::config::Config;
use m65_field_jacket::dek::Dek;
use m65_field_jacket::error::MfjError;
use m65_field_jacket::session::{
    deserialize, serialize, establish, invalidate_all, invalidate_pocket, try_resume, CachedDek, SessionAction,
    SessionRecord,
};

fn key_of(d: Option<Dek>) -> Option<[u8; 32]> {
    d.map(|d| *d.expose())
}

#[test]
fn cached_key_lives_until_its_expiry() {
    let mut r = SessionRecord::new();
    r.insert("/repo/.m65/p", &Dek::new([1; 32]), 100, 1000);
    assert_eq!(key_of(r.get("/repo/.m65/p", 1000)), Some([1; 32]));
    assert_eq!(key_of(r.get("/repo/.m65/p", 1099)), Some([1; 32]));
    assert_eq!(key_of(r.get("/repo/.m65/p", 1100)), None);
    assert_eq!(key_of(r.get("/repo/.m65/q", 1000)), None);
    assert_eq!(r.entry("/repo/.m65/p"), Some(CachedDek { bytes: [1; 32], expires_unix: 1100 }));
}

#[test]
fn insert_replaces_and_keeps_others() {
    let mut r = SessionRecord::new();
    r.insert("a", &Dek::new([1; 32]), 10, 0);
    r.insert("b", &Dek::new([2; 32]), 10, 0);
    r.insert("a", &Dek::new([3; 32]), 50, 0);
    assert_eq!(key_of(r.get("a", 20)), Some([3; 32]));
    assert_eq!(key_of(r.get("b", 5)), Some([2; 32]));
    assert_eq!(r.to_entries().len(), 2);
}

#[test]
fn invalidate_forgets_one_key() {
    let mut r = SessionRecord::new();
    r.insert("a", &Dek::new([1; 32]), 10, 0);
    r.insert("b", &Dek::new([2; 32]), 10, 0);
    assert!(r.invalidate("a"));
    assert!(!r.invalidate("a"));
    assert_eq!(key_of(r.get("a", 1)), None);
    assert_eq!(key_of(r.get("b", 1)), Some([2; 32]));
    assert!(!r.is_empty());
    assert!(r.invalidate("b"));
    assert!(r.is_empty());
}

#[test]
fn entries_round_trip() {
    let mut r = SessionRecord::new();
    r.insert("a", &Dek::new([1; 32]), 10, 5);
    r.insert("b", &Dek::new([2; 32]), 20, 5);
    let back = SessionRecord::from_entries(r.to_entries());
    assert_eq!(back.entry("a"), Some(CachedDek { bytes: [1; 32], expires_unix: 15 }));
    assert_eq!(back.entry("b"), Some(CachedDek { bytes: [2; 32], expires_unix: 25 }));
    assert_eq!(back.entry("c"), None);
}

#[test]
fn later_entries_win_when_loading() {
    let e = vec![
        ("a".to_owned(), CachedDek { bytes: [1; 32], expires_unix: 1 }),
        ("a".to_owned(), CachedDek { bytes: [2; 32], expires_unix: 2 }),
    ];
    let r = SessionRecord::from_entries(e);
    assert_eq!(r.entry("a"), Some(CachedDek { bytes: [2; 32], expires_unix: 2 }));
    assert_eq!(r.to_entries().len(), 1);
}

#[test]
fn establish_uses_the_configured_lifetime() {
    let mut r = SessionRecord::new();
    let config = Config::new("me".to_owned());
    establish(&mut r, "p", &Dek::new([6; 32]), &config, 1000);
    assert_eq!(r.entry("p"), Some(CachedDek { bytes: [6; 32], expires_unix: 1000 + 28800 }));
    assert_eq!(key_of(try_resume(&r, "p", 29799)), Some([6; 32]));
    assert_eq!(key_of(try_resume(&r, "p", 29800)), None);
}

#[test]
fn invalidate_pocket_decides_the_file() {
    let mut r = SessionRecord::new();
    assert_eq!(invalidate_pocket(&mut r, "x"), SessionAction::Keep);
    r.insert("a", &Dek::new([1; 32]), 10, 0);
    r.insert("b", &Dek::new([2; 32]), 10, 0);
    assert_eq!(invalidate_pocket(&mut r, "a"), SessionAction::Seal);
    assert_eq!(invalidate_pocket(&mut r, "b"), SessionAction::Remove);
    assert_eq!(invalidate_all(), SessionAction::Remove);
}

#[test]
fn key_hex_round_trip() {
    let mut bytes = [0u8; 32];
    for (i, b) in bytes.iter_mut().enumerate() {
        *b = (i * 9) as u8;
    }
    let text = serialize(&bytes);
    assert_eq!(text.len(), 64);
    assert!(text.starts_with("0009121b242d363f"));
    assert_eq!(deserialize(&text), Ok(bytes));
    assert_eq!(deserialize(&text.to_uppercase()), Ok(bytes));
}

#[test]
fn key_hex_errors() {
    assert_eq!(deserialize("zz"), Err(MfjError::InvalidHex));
    assert_eq!(deserialize("abc"), Err(MfjError::InvalidHex));
    assert_eq!(deserialize("abcd"), Err(MfjError::DekLength(2)));
    assert_eq!(serialize(&[0xab; 32]), "ab".repeat(32));
}
