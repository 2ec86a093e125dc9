use age::secrecy::ExposeSecret;
use argon2::Argon2;
use chacha20poly1305::aead::{Aead, KeyInit};
use chacha20poly1305::{ChaCha20Poly1305, Key, Nonce};
use m65_field_jacket::config::Config;
use m65_field_jacket::crypto::{random_nonce, random_salt};
use m65_field_jacket::dek::Dek;
use m65_field_jacket::error::MfjError;
use m65_field_jacket::identity::{seal_private_key, Identity, Locked, NewIdentity};
use m65_field_jacket::io::PassphraseSource;
use m65_field_jacket::keyring::Keyring;
use m65_field_jacket::name::{IdentityName, PocketName};
use m65_field_jacket::pocket::Pocket;
use m65_field_jacket::session::SessionRecord;
use std::cell::RefCell;

/// Answers every prompt with the next of its answers (the last one again
/// once they run out), or fails when it has none.
struct Answers(RefCell<Vec<String>>);

impl Answers {
    fn new(a: &[&str]) -> Answers {
        Answers(RefCell::new(a.iter().rev().map(|s| (*s).to_owned()).collect()))
    }
}

impl PassphraseSource for Answers {
    fn read(&self, _prompt: &str) -> Result<String, MfjError> {
        let mut v = self.0.borrow_mut();
        match v.len() {
            0 => Err(MfjError::PassphraseUnavailable),
            1 => Ok(v[0].clone()),
            _ => Ok(v.pop().unwrap()),
        }
    }
}

fn name(s: &str) -> IdentityName {
    IdentityName::parse(s).unwrap()
}

fn create(n: &str, pass: &str) -> NewIdentity {
    Identity::create(&name(n), false, &Answers::new(&[pass, pass])).ok().unwrap()
}

fn recipient_of(new: &NewIdentity) -> age::x25519::Recipient {
    new.public_text.parse().unwrap()
}

fn locked(n: &str) -> Identity<Locked> {
    Identity::open(&name(n), true).ok().unwrap()
}

#[test]
fn created_identity_unlocks_with_its_passphrase() {
    let new = create("me", "correct horse");
    assert_eq!(new.identity.name().as_str(), "me");
    assert!(new.public_text.starts_with("age1"));
    assert_eq!(new.public_text, recipient_of(&new).to_string());
    let id = locked("me").unlock_blob(&new.private_blob, "correct horse").ok().unwrap();
    assert_eq!(id.name().as_str(), "me");
    assert_eq!(id.as_age().to_public().to_string(), new.public_text);
}

#[test]
fn wrong_passphrase_does_not_unlock() {
    let new = create("me", "right");
    let err = locked("me").unlock_blob(&new.private_blob, "wrong").err().unwrap();
    assert_eq!(err, MfjError::Decryption);
}

#[test]
fn unlock_reads_the_passphrase() {
    let new = create("me", "pw");
    let id = locked("me").unlock(&new.private_blob, &Answers::new(&["pw"])).ok().unwrap();
    assert_eq!(id.as_age().to_public().to_string(), new.public_text);
    let err = locked("me").unlock(&new.private_blob, &Answers::new(&[])).err().unwrap();
    assert_eq!(err, MfjError::PassphraseUnavailable);
}

#[test]
fn short_blobs_are_refused() {
    assert_eq!(locked("me").unlock_blob(&[0; 15], "pw").err().unwrap(), MfjError::MalformedSalt);
    assert_eq!(locked("me").unlock_blob(&[0; 27], "pw").err().unwrap(), MfjError::MalformedNonce);
    assert_eq!(locked("me").unlock(&[0; 3], &Answers::new(&[])).err().unwrap(), MfjError::MalformedSalt);
}

#[test]
fn sealed_key_must_be_an_identity() {
    let salt = random_salt();
    let nonce = random_nonce();
    let blob = seal_private_key("pw", &salt, &nonce, "not a key").unwrap();
    assert_eq!(blob.len(), 16 + 12 + 9 + 16);
    assert_eq!(&blob[..16], &salt);
    assert_eq!(&blob[16..28], &nonce);
    assert_eq!(locked("x").unlock_blob(&blob, "pw").err().unwrap(), MfjError::InvalidPrivateKey);
}

#[test]
fn sealed_key_is_argon2_then_chacha() {
    let salt = [5u8; 16];
    let nonce = [6u8; 12];
    let blob = seal_private_key("passphrase", &salt, &nonce, "AGE-SECRET-KEY-1TEXT").unwrap();
    let mut kek = [0u8; 32];
    Argon2::default().hash_password_into(b"passphrase", &salt, &mut kek).unwrap();
    let plain = ChaCha20Poly1305::new(Key::from_slice(&kek)).decrypt(Nonce::from_slice(&nonce), &blob[28..]).unwrap();
    assert_eq!(plain, b"AGE-SECRET-KEY-1TEXT");
}

#[test]
fn create_refusals() {
    let exists = Identity::create(&name("me"), true, &Answers::new(&["a", "a"])).err().unwrap();
    assert_eq!(exists, MfjError::IdentityExists);
    let mismatch = Identity::create(&name("me"), false, &Answers::new(&["a", "b"])).err().unwrap();
    assert_eq!(mismatch, MfjError::PassphraseMismatch);
    let none = Identity::create(&name("me"), false, &Answers::new(&[])).err().unwrap();
    assert_eq!(none, MfjError::PassphraseUnavailable);
    assert_eq!(Identity::open(&name("me"), false).err().unwrap(), MfjError::IdentityNotFound);
}

#[test]
fn recipient_from_public_key_text() {
    let new = create("me", "pw");
    let text = format!("  {}\n", new.public_text);
    let r = locked("me").recipient(&text).ok().unwrap();
    assert_eq!(r.as_str(), new.public_text);
    assert_eq!(locked("me").recipient("age1nope").err().unwrap(), MfjError::InvalidPublicKey);
}

#[test]
fn list_identities_from_directory_entries() {
    let files: Vec<String> = ["me.pub", "me", "Bad.pub", "work.pub", "notes.txt", "x.pub.bak"]
        .iter()
        .map(|s| (*s).to_owned())
        .collect();
    let names: Vec<String> = Identity::list(&files).iter().map(|i| i.name().as_str().to_owned()).collect();
    assert_eq!(names, vec!["me".to_owned(), "work".to_owned()]);
}

#[test]
fn default_identity_cannot_be_removed() {
    let config = Config::new("me".to_owned());
    assert_eq!(config.check_removable("me"), Err(MfjError::DefaultIdentity));
    assert_eq!(config.check_removable("work"), Ok(()));
}

#[test]
fn keyring_gives_the_pocket_key() {
    let new = create("me", "pw");
    let id = locked("me").unlock_blob(&new.private_blob, "pw").ok().unwrap();
    let bytes = age::encrypt(&recipient_of(&new), &[8u8; 32]).unwrap();
    let ring = Keyring::from_bytes(bytes.clone());
    assert_eq!(ring.bytes(), &bytes[..]);
    assert_eq!(*ring.decrypt_dek(&id).ok().unwrap().expose(), [8u8; 32]);

    let short = Keyring::from_bytes(age::encrypt(&recipient_of(&new), &[8u8; 31]).unwrap());
    assert_eq!(short.decrypt_dek(&id).err().unwrap(), MfjError::DekLength(31));

    let other = create("other", "pw");
    let foreign = Keyring::from_bytes(age::encrypt(&recipient_of(&other), &[8u8; 32]).unwrap());
    assert_eq!(foreign.decrypt_dek(&id).err().unwrap(), MfjError::KeyringDecryption);
}

#[test]
fn pocket_unlocks_from_the_session_or_the_keyring() {
    let new = create("me", "pw");
    let ring = Keyring::from_bytes(age::encrypt(&recipient_of(&new), &[4u8; 32]).unwrap());
    let config = Config::new("me".to_owned());
    let pname = PocketName::parse("shared").unwrap();
    let mut record = SessionRecord::new();

    // Nothing cached: the identity unlocks the keyring, and the key is cached.
    let p = Pocket::open(&pname, "/repo", true).ok().unwrap();
    let u = p
        .unlock(&mut record, "/repo/.m65/shared", 100, &config, Some(&new.private_blob), &ring, &Answers::new(&["pw"]))
        .ok()
        .unwrap();
    assert_eq!(*u.dek().expose(), [4u8; 32]);
    assert_eq!(u.dir(), "/repo/.m65/shared");
    assert_eq!(record.get("/repo/.m65/shared", 100 + 28799).map(|d| *d.expose()), Some([4u8; 32]));

    // Cached: no passphrase is asked, no identity file is needed.
    let p = Pocket::open(&pname, "/repo", true).ok().unwrap();
    let u = p.unlock(&mut record, "/repo/.m65/shared", 200, &config, None, &ring, &Answers::new(&[])).ok().unwrap();
    assert_eq!(*u.dek().expose(), [4u8; 32]);

    // Expired, and no identity file.
    let p = Pocket::open(&pname, "/repo", true).ok().unwrap();
    let err = p.unlock(&mut record, "/repo/.m65/shared", 100 + 28800, &config, None, &ring, &Answers::new(&[])).err().unwrap();
    assert_eq!(err, MfjError::IdentityNotFound);
}

#[test]
fn pocket_create_and_open() {
    let pname = PocketName::parse("shared").unwrap();
    assert_eq!(Pocket::create(&pname, "/repo", true).err().unwrap(), MfjError::PocketExists);
    assert_eq!(Pocket::open(&pname, "/repo", false).err().unwrap(), MfjError::PocketNotFound);
    let p = Pocket::create(&pname, "/repo", false).ok().unwrap();
    assert_eq!(p.dir(), "/repo/.m65/shared");
    assert_eq!(p.name().as_str(), "shared");
    let u = p.into_unlocked(Dek::new([1; 32]));
    assert_eq!(u.secret_path("A"), "/repo/.m65/shared/A.enc");
}

#[test]
fn random_keys_differ() {
    assert_ne!(Dek::new_random().expose(), Dek::new_random().expose());
    assert_eq!(Dek::from_bytes(&[3; 32]).ok().map(|d| *d.expose()), Some([3; 32]));
    assert_eq!(Dek::from_bytes(&[3; 5]).err(), Some(MfjError::DekLength(5)));
}

#[test]
fn unlocked_identity_has_the_written_public_key() {
    let new = create("me", "pw");
    let id = locked("me").unlock_blob(&new.private_blob, "pw").ok().unwrap();
    assert_eq!(id.public_text(), new.public_text);
}

#[test]
fn create_from_checks_the_confirmation() {
    let key = age::x25519::Identity::generate();
    let text = key.to_string().expose_secret().to_owned();
    let salt = [1u8; 16];
    let nonce = [2u8; 12];
    let err = Identity::create_from(&name("me"), false, &text, "a", "b", &salt, &nonce).err().unwrap();
    assert_eq!(err, MfjError::PassphraseMismatch);
    let err = Identity::create_from(&name("me"), true, &text, "a", "a", &salt, &nonce).err().unwrap();
    assert_eq!(err, MfjError::IdentityExists);
    let err = Identity::create_from(&name("me"), false, "not a key", "a", "a", &salt, &nonce).err().unwrap();
    assert_eq!(err, MfjError::InvalidPrivateKey);
    let new = Identity::create_from(&name("me"), false, &text, "a", "a", &salt, &nonce).ok().unwrap();
    assert_eq!(new.public_text, key.to_public().to_string());
    assert_eq!(new.private_blob, seal_private_key("a", &salt, &nonce, &text).unwrap());
    let id = locked("me").unlock_blob(&new.private_blob, "a").ok().unwrap();
    assert_eq!(id.as_age().to_public().to_string(), new.public_text);
}
