use chacha20poly1305::aead::{Aead, KeyInit};
use chacha20poly1305::{ChaCha20Poly1305, Key, Nonce};
use m65_field_jacket::dek::Dek;
use m65_field_jacket::error::MfjError;
use m65_field_jacket::name::{EnvSecretName, FileSecretName, NameError, PocketName};
use m65_field_jacket::pocket::{Pocket, Unlocked};
use m65_field_jacket::secret::{resolve_file_name, Secret, SecretKind, SecretMeta};
use m65_field_jacket::stanza::{read_stanzas, Stanza};
use m65_field_jacket::text::IntErrorKind;

fn pocket_with_key(key: [u8; 32]) -> Pocket<Unlocked> {
    let name = PocketName::parse("shared").unwrap();
    Pocket::open(&name, "/repo", true).unwrap().into_unlocked(Dek::new(key))
}

fn stanza(tag: &str, args: &[&str]) -> Stanza {
    Stanza { tag: tag.to_owned(), args: args.iter().map(|a| (*a).to_owned()).collect(), body: vec![] }
}

const ENV_HEADER: &str =
    "age-encryption.org/v1\n-> mfj-type: env\n-> mfj-name: API_KEY\n-> mfj-created: 1700000000\n---\n";

#[test]
fn stanzas_of_a_header() {
    let got = read_stanzas(ENV_HEADER.as_bytes()).unwrap();
    assert_eq!(
        got,
        vec![
            stanza("mfj-type", &["env"]),
            stanza("mfj-name", &["API_KEY"]),
            stanza("mfj-created", &["1700000000"]),
        ]
    );
}

#[test]
fn stanzas_skip_foreign_tags_and_split_arguments() {
    let header = "age-encryption.org/v1\r\n-> X25519 abc\n-> mfj-a: b: c\r\nnot a stanza\n->mfj-x: y\n-> mfj-b\n---\n-> mfj-after: z\n";
    let got = read_stanzas(header.as_bytes()).unwrap();
    assert_eq!(got, vec![stanza("mfj-a", &["b", "c"]), stanza("mfj-b", &[])]);
}

#[test]
fn stanzas_refuse_a_line_that_is_not_utf8() {
    let mut header = b"age-encryption.org/v1\n-> mfj-name: ".to_vec();
    header.extend_from_slice(&[0xff, 0xfe, b'\n']);
    header.extend_from_slice(b"---\n");
    assert_eq!(read_stanzas(&header), Err(MfjError::HeaderNotUtf8));
}

#[test]
fn stanzas_ignore_the_first_line_and_what_follows_the_end() {
    let mut header = vec![0xffu8, b'\n'];
    header.extend_from_slice(b"-> mfj-name: n\n---\n");
    header.extend_from_slice(&[0xff, b'\n']);
    assert_eq!(read_stanzas(&header), Ok(vec![stanza("mfj-name", &["n"])]));
}

#[test]
fn meta_from_stanzas_last_tag_wins() {
    let st = vec![
        stanza("mfj-name", &["old"]),
        stanza("mfj-type", &["env"]),
        stanza("mfj-name", &["new"]),
        stanza("mfj-created", &["5"]),
    ];
    let m = SecretMeta::from_stanzas(&st).unwrap();
    assert_eq!(m.name, "new");
    assert_eq!(m.kind, SecretKind::Env);
    assert_eq!(m.created, 5);
}

#[test]
fn meta_errors() {
    let name = stanza("mfj-name", &["n"]);
    let env = stanza("mfj-type", &["env"]);
    let file = stanza("mfj-type", &["file"]);
    let created = stanza("mfj-created", &["1"]);
    let target = stanza("mfj-target", &["/etc/x"]);
    assert_eq!(SecretMeta::from_stanzas(&[env.clone_stanza(), created.clone_stanza()]).unwrap_err(), MfjError::MissingName);
    assert_eq!(SecretMeta::from_stanzas(&[name.clone_stanza(), created.clone_stanza()]).unwrap_err(), MfjError::MissingType);
    assert_eq!(SecretMeta::from_stanzas(&[name.clone_stanza(), env.clone_stanza()]).unwrap_err(), MfjError::MissingCreated);
    assert_eq!(
        SecretMeta::from_stanzas(&[name.clone_stanza(), env.clone_stanza(), created.clone_stanza(), target.clone_stanza()])
            .unwrap_err(),
        MfjError::UnexpectedTarget
    );
    assert_eq!(
        SecretMeta::from_stanzas(&[name.clone_stanza(), file.clone_stanza(), created.clone_stanza()]).unwrap_err(),
        MfjError::MissingTarget
    );
    assert_eq!(
        SecretMeta::from_stanzas(&[name.clone_stanza(), stanza("mfj-type", &["weird"]), created.clone_stanza()])
            .unwrap_err(),
        MfjError::UnknownKind("weird".to_owned())
    );
    assert_eq!(
        SecretMeta::from_stanzas(&[name.clone_stanza(), env.clone_stanza(), stanza("mfj-created", &["12x"])])
            .unwrap_err(),
        MfjError::BadCreated(IntErrorKind::InvalidDigit)
    );
    let m = SecretMeta::from_stanzas(&[name, file, created, target]).unwrap();
    assert_eq!(m.kind, SecretKind::File { target: "/etc/x".to_owned() });
}

trait CloneStanza {
    fn clone_stanza(&self) -> Stanza;
}

impl CloneStanza for Stanza {
    fn clone_stanza(&self) -> Stanza {
        Stanza { tag: self.tag.clone(), args: self.args.clone(), body: self.body.clone() }
    }
}

#[test]
fn read_a_secret_file() {
    let mut bytes = ENV_HEADER.as_bytes().to_vec();
    bytes.extend_from_slice(&[1, 2, 3]);
    let s = Secret::read("/repo/.m65/shared/API_KEY.enc", &bytes).unwrap();
    assert_eq!(s.meta().name, "API_KEY");
    assert_eq!(s.meta().kind, SecretKind::Env);
    assert_eq!(s.meta().created, 1700000000);
    assert_eq!(s.ciphertext(), &[1, 2, 3]);
    assert_eq!(s.path(), "/repo/.m65/shared/API_KEY.enc");
}

#[test]
fn read_refuses_a_file_without_separator() {
    let bytes = b"age-encryption.org/v1\n-> mfj-name: x\n--\n".to_vec();
    assert_eq!(Secret::read("p", &bytes).unwrap_err(), MfjError::MissingSeparator);
}

#[test]
fn create_writes_the_header_then_nonce_and_sealed_value() {
    let pocket = pocket_with_key([7; 32]);
    let name = EnvSecretName::parse("API_KEY").unwrap();
    let (secret, file) = Secret::create_env(&pocket, &name, b"sk-123", None, 1700000000).unwrap();
    let header = ENV_HEADER.as_bytes();
    assert_eq!(&file[..header.len()], header);
    assert_eq!(&file[header.len()..], secret.ciphertext());
    assert_eq!(secret.ciphertext().len(), 12 + 6 + 16);
    assert_eq!(secret.path(), "/repo/.m65/shared/API_KEY.enc");
    assert_eq!(secret.meta().name, "API_KEY");
    assert_eq!(secret.meta().created, 1700000000);
    // The value is sealed with ChaCha20-Poly1305 under the pocket key.
    let ct = secret.ciphertext();
    let plain = ChaCha20Poly1305::new(Key::from_slice(&[7; 32]))
        .decrypt(Nonce::from_slice(&ct[..12]), &ct[12..])
        .unwrap();
    assert_eq!(plain, b"sk-123");
}

#[test]
fn created_file_reads_back_and_decrypts() {
    let pocket = pocket_with_key([9; 32]);
    let name = EnvSecretName::parse("DB_PASSWORD").unwrap();
    let (secret, file) = Secret::create_env(&pocket, &name, b"hunter2", None, 42).unwrap();
    let again = Secret::read(secret.path(), &file).unwrap();
    assert_eq!(again.meta().name, "DB_PASSWORD");
    assert_eq!(again.meta().kind, SecretKind::Env);
    assert_eq!(again.meta().created, 42);
    assert_eq!(again.ciphertext(), secret.ciphertext());
    assert_eq!(again.decrypt(&pocket).unwrap(), b"hunter2");
}

#[test]
fn file_secret_reads_back_with_target() {
    let pocket = pocket_with_key([1; 32]);
    let (secret, file) =
        Secret::create_file(&pocket, "/home/u/.ssh/id_ed25519", Some("~/.ssh/id_ed25519"), None, b"KEY", None, 3).unwrap();
    let header = "age-encryption.org/v1\n-> mfj-type: file\n-> mfj-target: ~/.ssh/id_ed25519\n-> mfj-name: id_ed25519\n-> mfj-created: 3\n---\n";
    assert_eq!(&file[..header.len()], header.as_bytes());
    let again = Secret::read(secret.path(), &file).unwrap();
    assert_eq!(again.meta().name, "id_ed25519");
    assert_eq!(again.meta().kind, SecretKind::File { target: "~/.ssh/id_ed25519".to_owned() });
    assert_eq!(again.decrypt(&pocket).unwrap(), b"KEY");
}

#[test]
fn file_secret_target_defaults_to_source() {
    let pocket = pocket_with_key([1; 32]);
    let name = FileSecretName::parse("cfg").unwrap();
    let (secret, _) = Secret::create_file(&pocket, "conf/app.toml", None, Some(&name), b"x", None, 0).unwrap();
    assert_eq!(secret.meta().name, "cfg");
    assert_eq!(secret.meta().kind, SecretKind::File { target: "conf/app.toml".to_owned() });
    assert_eq!(secret.path(), "/repo/.m65/shared/cfg.enc");
}

#[test]
fn file_secret_name_from_source() {
    assert_eq!(resolve_file_name("/a/b/c.txt", None).unwrap().as_str(), "c.txt");
    assert_eq!(resolve_file_name("/", None).unwrap_err(), MfjError::InvalidSourcePath);
    assert_eq!(resolve_file_name("/a/..", None).unwrap_err(), MfjError::InvalidSourcePath);
    assert_eq!(resolve_file_name("/a/b\u{1}c", None).unwrap_err(), MfjError::DerivedName(NameError::ControlChar));
}

#[test]
fn kind_conflict_with_existing_secret() {
    let pocket = pocket_with_key([2; 32]);
    let name = EnvSecretName::parse("TOKEN").unwrap();
    let (existing, _) = Secret::create_env(&pocket, &name, b"a", None, 1).unwrap();
    let err = Secret::create(&pocket, "TOKEN", SecretKind::File { target: "t".to_owned() }, b"b", Some(&existing), 2)
        .unwrap_err();
    assert_eq!(err, MfjError::KindConflict);
    // The same kind replaces it.
    let (replaced, _) = Secret::create_env(&pocket, &name, b"b", Some(&existing), 2).unwrap();
    assert_eq!(replaced.decrypt(&pocket).unwrap(), b"b");
}

#[test]
fn fresh_nonce_for_each_secret() {
    let pocket = pocket_with_key([3; 32]);
    let name = EnvSecretName::parse("X").unwrap();
    let (a, _) = Secret::create_env(&pocket, &name, b"same", None, 1).unwrap();
    let (b, _) = Secret::create_env(&pocket, &name, b"same", None, 1).unwrap();
    assert_ne!(a.ciphertext(), b.ciphertext());
}

#[test]
fn decrypt_with_another_key_fails() {
    let pocket = pocket_with_key([4; 32]);
    let other = pocket_with_key([5; 32]);
    let name = EnvSecretName::parse("X").unwrap();
    let (s, _) = Secret::create_env(&pocket, &name, b"v", None, 1).unwrap();
    assert_eq!(s.decrypt(&other).unwrap_err(), MfjError::Decryption);
}

#[test]
fn decrypt_refuses_a_short_ciphertext() {
    let pocket = pocket_with_key([4; 32]);
    let mut bytes = ENV_HEADER.as_bytes().to_vec();
    bytes.extend_from_slice(&[0; 11]);
    let s = Secret::read("p", &bytes).unwrap();
    assert_eq!(s.decrypt(&pocket).unwrap_err(), MfjError::MalformedCiphertext);
    let mut bytes = ENV_HEADER.as_bytes().to_vec();
    bytes.extend_from_slice(&[0; 20]);
    let s = Secret::read("p", &bytes).unwrap();
    assert_eq!(s.decrypt(&pocket).unwrap_err(), MfjError::Decryption);
}

#[test]
fn kind_names_and_header_lines() {
    assert_eq!(SecretKind::Env.kind_name(), "env");
    assert_eq!(SecretKind::File { target: "t".to_owned() }.kind_name(), "file");
    assert_eq!(SecretKind::Env.header_lines(), "-> mfj-type: env\n");
    assert_eq!(
        SecretKind::File { target: "/x".to_owned() }.header_lines(),
        "-> mfj-type: file\n-> mfj-target: /x\n"
    );
    assert!(SecretKind::Env.same_variant(&SecretKind::Env));
    assert!(!SecretKind::Env.same_variant(&SecretKind::File { target: "a".to_owned() }));
}

#[test]
fn pocket_secret_needs_its_file() {
    let pocket = pocket_with_key([4; 32]);
    assert_eq!(pocket.secret("NOPE", None).unwrap_err(), MfjError::SecretNotFound);
    let mut bytes = ENV_HEADER.as_bytes().to_vec();
    bytes.extend_from_slice(&[0; 30]);
    let s = pocket.secret("API_KEY", Some(&bytes)).unwrap();
    assert_eq!(s.path(), "/repo/.m65/shared/API_KEY.enc");
}

#[test]
fn pocket_secret_files_are_the_enc_entries() {
    let pocket = pocket_with_key([4; 32]);
    let entries: Vec<String> = ["/r/A.enc", "/r/keyring", "/r/.tmp", "/r/b.enc", "/r/c.enc.bak"]
        .iter()
        .map(|s| (*s).to_owned())
        .collect();
    assert_eq!(pocket.secrets(&entries), vec!["/r/A.enc".to_owned(), "/r/b.enc".to_owned()]);
}

#[test]
fn target_holding_colon_space_reads_back_cut() {
    // A header value is split at ": ", so such a target does not survive.
    let pocket = pocket_with_key([1; 32]);
    let name = FileSecretName::parse("f").unwrap();
    let (_, file) = Secret::create_file(&pocket, "src", Some("a: b"), Some(&name), b"x", None, 0).unwrap();
    let again = Secret::read("p", &file).unwrap();
    assert_eq!(again.meta().kind, SecretKind::File { target: "a".to_owned() });
}

#[test]
fn name_ending_with_dashes_cuts_the_header() {
    // The first "---\n" in the file ends the header, wherever it stands.
    let pocket = pocket_with_key([1; 32]);
    let name = FileSecretName::parse("notes---").unwrap();
    let (_, file) = Secret::create_file(&pocket, "src", None, Some(&name), b"x", None, 0).unwrap();
    assert_eq!(Secret::read("p", &file).unwrap_err(), MfjError::MissingCreated);
}
