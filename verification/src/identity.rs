//! Identities: age X25519 key pairs whose private key is kept encrypted
//! under a passphrase.
//!
//! The private key file holds `salt (16 bytes) || nonce (12 bytes) ||
//! ciphertext`, where the ciphertext is the ChaCha20-Poly1305 sealing of the
//! private key text under the Argon2 key of the passphrase and salt.  The
//! public key file holds the recipient text.

use crate::crypto::{
    argon2_kek, chacha_open, chacha_seal, decrypt, derive_kek, encrypt, expose_key, random_nonce,
    random_salt, sealable_len, MAX_PASSWORD_LEN, NONCE_LEN, SALT_LEN,
};
use crate::error::MfjError;
use crate::io::{answers_only, PassphraseSource};
use crate::name::{spec_parse, IdentityName, Name, NameError};
use crate::storage::{extension_of, file_stem_of, path_extension, path_file_stem};
use crate::text::{str_from_utf8, trim, trim_spec};
use age::secrecy::ExposeSecret;
use age::x25519::Identity as X25519Identity;
use age::x25519::Recipient;
use vstd::prelude::*;
use vstd::string::*;
use vstd::utf8::{decode_utf8, encode_utf8, valid_utf8};

verus! {

broadcast use vstd::string::group_string_axioms, vstd::utf8::encode_utf8_valid_utf8, vstd::utf8::encode_utf8_decode_utf8;

#[verifier::external_type_specification]
#[verifier::external_body]
pub struct ExX25519Identity(X25519Identity);

/// Whether `s` is the text of an age X25519 private key.
pub uninterp spec fn is_identity_text(s: Seq<char>) -> bool;

/// Whether `s` is the text of an age X25519 public key (recipient).
pub uninterp spec fn is_recipient_text(s: Seq<char>) -> bool;

/// The public key text of the private key written `key_text`: the key
/// parsed, its public key taken, and that written out.
pub uninterp spec fn public_key_text(key_text: Seq<char>) -> Seq<char>;

/// The canonical text of the public key written `s`: the key parsed and
/// written out again.
pub uninterp spec fn recipient_key_text(s: Seq<char>) -> Seq<char>;

/// A fresh random key pair (`age::x25519::Identity::generate`).
///
/// Trusted: nothing is stated of the key, which is random.
#[verifier::external_body]
fn generate_key() -> X25519Identity {
    X25519Identity::generate()
}

/// The private key text of a key pair (`Identity::to_string`).
///
/// Trusted: the text is the upper-case Bech32 encoding with the secret key
/// prefix, which `FromStr` for `Identity` parses back.
#[verifier::external_body]
fn secret_text_of(key: &X25519Identity) -> (r: String)
    ensures
        is_identity_text(r@),
{
    key.to_string().expose_secret().to_owned()
}

/// The public key text of a private key text: `FromStr` for
/// `age::x25519::Identity`, then `Identity::to_public`, then `Display` for
/// `Recipient`.
///
/// Trusted: it succeeds exactly on private key texts; the public key is a
/// function of the private key; and the Bech32 text written for it parses
/// back as a recipient and is written out again unchanged.
#[verifier::external_body]
fn public_key_of_text(key_text: &str) -> (r: Result<String, &'static str>)
    ensures
        r is Ok <==> is_identity_text(key_text@),
        r matches Ok(t) ==> t@ == public_key_text(key_text@) && is_recipient_text(t@) && recipient_key_text(t@)
            == t@,
{
    match key_text.parse::<X25519Identity>() {
        Ok(k) => Ok(k.to_public().to_string()),
        Err(e) => Err(e),
    }
}

/// The age identity of a private key text (`FromStr` for
/// `age::x25519::Identity`).
///
/// Trusted: the parse succeeds on every private key text, which the
/// requirement asks for.
#[verifier::external_body]
fn identity_of_text(key_text: &str) -> X25519Identity
    requires
        is_identity_text(key_text@),
{
    key_text.parse::<X25519Identity>().expect("a private key text")
}

/// The canonical text of a public key text: `FromStr` for
/// `age::x25519::Recipient`, then `Display`.
///
/// Trusted: the parse succeeds exactly on public key texts, and the text
/// written is a function of the key parsed.
#[verifier::external_body]
fn parse_recipient(s: &str) -> (r: Result<String, &'static str>)
    ensures
        r is Ok <==> is_recipient_text(s@),
        r matches Ok(t) ==> t@ == recipient_key_text(s@),
{
    match s.parse::<Recipient>() {
        Ok(k) => Ok(k.to_string()),
        Err(e) => Err(e),
    }
}

/// An age X25519 public key, held as its canonical text.
pub struct PublicKey {
    text: String,
}

impl View for PublicKey {
    type V = Seq<char>;

    closed spec fn view(&self) -> Seq<char> {
        self.text@
    }
}

impl PublicKey {
    /// The canonical text of the key (`age1...`).
    pub fn as_str(&self) -> (r: &str)
        ensures
            r@ == self@,
    {
        self.text.as_str()
    }
}

/// The private key of an identity is still encrypted.
pub struct Locked;

/// The private key of an identity has been decrypted: its text, which is a
/// valid private key text.
pub struct Unlocked {
    key_text: String,
}

impl Unlocked {
    #[verifier::type_invariant]
    closed spec fn valid_key(self) -> bool {
        is_identity_text(self.key_text@)
    }
}

/// A named identity in state `S` (`Locked` or `Unlocked`).
pub struct Identity<S> {
    name: IdentityName,
    state: S,
}

/// The private key file of an identity: salt, then nonce, then ciphertext.
pub open spec fn identity_blob(salt: Seq<u8>, nonce: Seq<u8>, ciphertext: Seq<u8>) -> Seq<u8> {
    salt + nonce + ciphertext
}

/// The files of a new identity hold the private key text `key`, sealed
/// under the passphrase `pass` with the salt and nonce they begin with, and
/// the public key text of `key`.
pub open spec fn created_files(n: NewIdentity, pass: Seq<char>, key: Seq<char>) -> bool {
    let blob = n.private_blob@;
    &&& blob.len() >= SALT_LEN + NONCE_LEN
    &&& blob == identity_blob(
        blob.subrange(0, 16),
        blob.subrange(16, 28),
        chacha_seal(argon2_kek(encode_utf8(pass), blob.subrange(0, 16)), blob.subrange(16, 28), encode_utf8(key)),
    )
    &&& is_identity_text(key)
    &&& sealable_len(encode_utf8(key).len())
    &&& encode_utf8(pass).len() <= MAX_PASSWORD_LEN
    &&& n.public_text@ == public_key_text(key)
    &&& is_recipient_text(n.public_text@)
}

/// What unlocking a well-sized blob with key-encryption key `kek` gives:
/// the private key text, or why not.
pub enum UnlockOutcome {
    Unlocked(Seq<char>),
    Fail(MfjError),
}

pub open spec fn unlock_with_kek(kek: Seq<u8>, blob: Seq<u8>) -> UnlockOutcome {
    match chacha_open(kek, blob.subrange(16, 28), blob.subrange(28, blob.len() as int)) {
        None => UnlockOutcome::Fail(MfjError::Decryption),
        Some(pt) => if !valid_utf8(pt) {
            UnlockOutcome::Fail(MfjError::KeyNotUtf8)
        } else if !is_identity_text(decode_utf8(pt)) {
            UnlockOutcome::Fail(MfjError::InvalidPrivateKey)
        } else {
            UnlockOutcome::Unlocked(decode_utf8(pt))
        },
    }
}

/// What unlocking the private key file `blob` with the passphrase `pass`
/// gives: the file's shape is checked, the key derived from the whole
/// passphrase, then as `unlock_with_kek`.
pub open spec fn unlock_outcome(pass: Seq<char>, blob: Seq<u8>) -> UnlockOutcome {
    if blob.len() < SALT_LEN {
        UnlockOutcome::Fail(MfjError::MalformedSalt)
    } else if blob.len() < SALT_LEN + NONCE_LEN {
        UnlockOutcome::Fail(MfjError::MalformedNonce)
    } else if encode_utf8(pass).len() > MAX_PASSWORD_LEN {
        UnlockOutcome::Fail(MfjError::KeyDerivation)
    } else {
        unlock_with_kek(argon2_kek(encode_utf8(pass), blob.subrange(0, 16)), blob)
    }
}

/// Whether `r` is the outcome `o` for the identity named `name`.
pub open spec fn unlocked_as(r: Result<Identity<Unlocked>, MfjError>, o: UnlockOutcome, name: Seq<char>) -> bool {
    match o {
        UnlockOutcome::Unlocked(t) => r matches Ok(i) && i@ == t && i.name_view() == name,
        UnlockOutcome::Fail(e) => r == Err::<Identity<Unlocked>, MfjError>(e),
    }
}

/// Whether `r` is what creating the identity `name` gives when the
/// passphrase read is `pass` and its confirmation `conf`: a mismatch is
/// refused; a passphrase Argon2 refuses is refused; otherwise the files
/// seal some private key under `pass` (or ChaCha20 refuses the key text).
pub open spec fn created_as(r: Result<NewIdentity, MfjError>, name: Seq<char>, pass: Seq<char>, conf: Seq<char>) -> bool {
    if pass != conf {
        r == Err::<NewIdentity, MfjError>(MfjError::PassphraseMismatch)
    } else if encode_utf8(pass).len() > MAX_PASSWORD_LEN {
        r == Err::<NewIdentity, MfjError>(MfjError::KeyDerivation)
    } else {
        match r {
            Ok(n) => n.identity.name_view() == name && exists|key: Seq<char>| #[trigger] created_files(n, pass, key),
            Err(e) => e == MfjError::Encryption,
        }
    }
}

impl<S> Identity<S> {
    pub closed spec fn name_view(&self) -> Seq<char> {
        self.name@
    }

    /// The identity's name.
    pub fn name(&self) -> (r: &IdentityName)
        ensures
            r@ == self.name_view(),
    {
        &self.name
    }

    /// The public key of the identity, read from the text of its public key
    /// file (surrounding whitespace is ignored).
    pub fn recipient(&self, public_text: &str) -> (r: Result<PublicKey, MfjError>)
        ensures
            is_recipient_text(trim_spec(public_text@)) ==> (r matches Ok(k) && k@ == recipient_key_text(
                trim_spec(public_text@),
            )),
            !is_recipient_text(trim_spec(public_text@)) ==> r == Err::<PublicKey, MfjError>(
                MfjError::InvalidPublicKey,
            ),
    {
        let t = trim(public_text);
        match parse_recipient(t.as_str()) {
            Ok(text) => Ok(PublicKey { text }),
            Err(_) => Err(MfjError::InvalidPublicKey),
        }
    }
}

/// A freshly created identity: the identity and the two files to write
/// (the encrypted private key and the public key text).
pub struct NewIdentity {
    pub identity: Identity<Locked>,
    pub private_blob: Vec<u8>,
    pub public_text: String,
}

/// Seals a private key text under a passphrase: the private key file.
pub fn seal_private_key(passphrase: &str, salt: &[u8; SALT_LEN], nonce: &[u8; NONCE_LEN], key_text: &str) -> (r:
    Result<Vec<u8>, MfjError>)
    ensures
        encode_utf8(passphrase@).len() > MAX_PASSWORD_LEN ==> r == Err::<Vec<u8>, MfjError>(MfjError::KeyDerivation),
        encode_utf8(passphrase@).len() <= MAX_PASSWORD_LEN && !sealable_len(encode_utf8(key_text@).len())
            ==> r == Err::<Vec<u8>, MfjError>(MfjError::Encryption),
        encode_utf8(passphrase@).len() <= MAX_PASSWORD_LEN && sealable_len(encode_utf8(key_text@).len())
            ==> (r matches Ok(blob) && blob@ == identity_blob(
                salt@,
                nonce@,
                chacha_seal(argon2_kek(encode_utf8(passphrase@), salt@), nonce@, encode_utf8(key_text@)),
            )),
{
    let kek = derive_kek(passphrase.as_bytes(), salt)?;
    let ciphertext = encrypt(expose_key(&kek), nonce, key_text.as_bytes())?;
    let mut blob: Vec<u8> = Vec::new();
    blob.extend_from_slice(salt);
    blob.extend_from_slice(nonce);
    blob.extend_from_slice(&ciphertext);
    proof {
        assert(blob@ =~= identity_blob(salt@, nonce@, ciphertext@));
    }
    Ok(blob)
}

fn array16(b: &[u8]) -> (a: [u8; 16])
    requires
        b@.len() == 16,
    ensures
        a@ == b@,
{
    let mut a = [0u8;16];
    let mut i: usize = 0;
    while i < 16
        invariant
            b@.len() == 16,
            i <= 16,
            forall|j: int| 0 <= j < i ==> a@[j] == b@[j],
        decreases 16 - i,
    {
        a[i] = b[i];
        i += 1;
    }
    assert(a@ =~= b@);
    a
}

/// Copies a 12-byte slice into an array.
pub fn array12(b: &[u8]) -> (a: [u8; 12])
    requires
        b@.len() == 12,
    ensures
        a@ == b@,
{
    let mut a = [0u8;12];
    let mut i: usize = 0;
    while i < 12
        invariant
            b@.len() == 12,
            i <= 12,
            forall|j: int| 0 <= j < i ==> a@[j] == b@[j],
        decreases 12 - i,
    {
        a[i] = b[i];
        i += 1;
    }
    assert(a@ =~= b@);
    a
}

impl Identity<Locked> {
    /// The identity of this name, whose private key file exists (as
    /// `private_exists` tells).
    pub fn open(name: &IdentityName, private_exists: bool) -> (r: Result<Identity<Locked>, MfjError>)
        ensures
            private_exists <==> r is Ok,
            r matches Ok(i) ==> i.name_view() == name@,
            r matches Err(e) ==> e == MfjError::IdentityNotFound,
    {
        if !private_exists {
            return Err(MfjError::IdentityNotFound);
        }
        Ok(Identity { name: name.duplicate(), state: Locked })
    }

    /// Unlocks the identity from its private key file and a passphrase.
    ///
    /// The key derivation may fail (it refuses passphrases too long for
    /// Argon2); otherwise the outcome is that of `unlock_with_kek`.  A file
    /// sealed by `seal_private_key` under the same passphrase gives back the
    /// key text it sealed.
    pub fn unlock_blob(self, blob: &[u8], passphrase: &str) -> (r: Result<Identity<Unlocked>, MfjError>)
        ensures
            blob@.len() < SALT_LEN ==> r == Err::<Identity<Unlocked>, MfjError>(MfjError::MalformedSalt),
            SALT_LEN <= blob@.len() < SALT_LEN + NONCE_LEN ==> r == Err::<Identity<Unlocked>, MfjError>(MfjError::MalformedNonce),
            encode_utf8(passphrase@).len() > MAX_PASSWORD_LEN && blob@.len() >= SALT_LEN + NONCE_LEN
                ==> r == Err::<Identity<Unlocked>, MfjError>(MfjError::KeyDerivation),
            encode_utf8(passphrase@).len() <= MAX_PASSWORD_LEN && blob@.len() >= SALT_LEN + NONCE_LEN ==> {
                let kek = argon2_kek(encode_utf8(passphrase@), blob@.subrange(0, 16));
                match unlock_with_kek(kek, blob@) {
                    UnlockOutcome::Unlocked(t) => r matches Ok(i) && i.name_view() == self.name_view() && i@ == t,
                    UnlockOutcome::Fail(e) => r == Err::<Identity<Unlocked>, MfjError>(e),
                }
            },
            forall|salt: Seq<u8>, nonce: Seq<u8>, key: Seq<char>|
                #![trigger identity_blob(salt, nonce, chacha_seal(argon2_kek(encode_utf8(passphrase@), salt), nonce, encode_utf8(key)))]
                salt.len() == SALT_LEN && nonce.len() == NONCE_LEN && sealable_len(encode_utf8(key).len())
                && encode_utf8(passphrase@).len() <= MAX_PASSWORD_LEN
                && blob@ == identity_blob(salt, nonce, chacha_seal(argon2_kek(encode_utf8(passphrase@), salt), nonce, encode_utf8(key)))
                && is_identity_text(key) ==> (r matches Ok(i) && i@ == key && i.name_view() == self.name_view()),
            unlocked_as(r, unlock_outcome(passphrase@, blob@), self.name_view()),
    {
        if blob.len() < SALT_LEN {
            return Err(MfjError::MalformedSalt);
        }
        if blob.len() < SALT_LEN + NONCE_LEN {
            return Err(MfjError::MalformedNonce);
        }
        let salt = array16(&blob[0..16]);
        let nonce = array12(&blob[16..28]);
        let ciphertext = &blob[28..blob.len()];
        proof {
            assert forall|salt: Seq<u8>, nonce: Seq<u8>, key: Seq<char>|
                salt.len() == SALT_LEN && nonce.len() == NONCE_LEN && blob@ == identity_blob(salt, nonce, chacha_seal(argon2_kek(encode_utf8(passphrase@), salt), nonce, encode_utf8(key)))
                implies blob@.subrange(0, 16) == salt && blob@.subrange(16, 28) == nonce
                    && ciphertext@ == chacha_seal(argon2_kek(encode_utf8(passphrase@), salt), nonce, encode_utf8(key)) by {
                assert(blob@.subrange(0, 16) =~= salt);
                assert(blob@.subrange(16, 28) =~= nonce);
                assert(ciphertext@ =~= chacha_seal(argon2_kek(encode_utf8(passphrase@), salt), nonce, encode_utf8(key)));
            }
        }
        let kek = derive_kek(passphrase.as_bytes(), &salt)?;
        let plaintext = decrypt(expose_key(&kek), &nonce, ciphertext)?;
        let key_str = match str_from_utf8(plaintext.as_slice()) {
            Ok(s) => s,
            Err(_) => {
                return Err(MfjError::KeyNotUtf8);
            },
        };
        if public_key_of_text(key_str).is_err() {
            return Err(MfjError::InvalidPrivateKey);
        }
        Ok(Identity { name: self.name, state: Unlocked { key_text: key_str.to_owned() } })
    }

    /// Unlocks the identity: checks the file's shape, asks for the
    /// passphrase, then proceeds as `unlock_blob`.
    pub fn unlock<P: PassphraseSource>(self, blob: &[u8], passphrase: &P) -> (r: Result<
        Identity<Unlocked>,
        MfjError,
    >)
        ensures
            blob@.len() < SALT_LEN ==> r == Err::<Identity<Unlocked>, MfjError>(MfjError::MalformedSalt),
            SALT_LEN <= blob@.len() < SALT_LEN + NONCE_LEN ==> r == Err::<Identity<Unlocked>, MfjError>(MfjError::MalformedNonce),
            r matches Ok(i) ==> i.name_view() == self.name_view(),
            r matches Ok(i) ==> exists|pass: Seq<char>|
                encode_utf8(pass).len() <= MAX_PASSWORD_LEN && #[trigger] unlock_with_kek(
                    argon2_kek(encode_utf8(pass), blob@.subrange(0, 16)),
                    blob@,
                ) == UnlockOutcome::Unlocked(i@),
            blob@.len() >= SALT_LEN + NONCE_LEN ==> match r {
                Err(e) => e == MfjError::PassphraseUnavailable || e == MfjError::KeyDerivation || exists|
                    pass: Seq<char>,
                |
                    #[trigger] unlock_with_kek(argon2_kek(encode_utf8(pass), blob@.subrange(0, 16)), blob@)
                        == UnlockOutcome::Fail(e),
                Ok(_) => true,
            },
            blob@.len() >= SALT_LEN + NONCE_LEN ==> (exists|s: String|
                #[trigger] call_ensures(P::read, (passphrase, "Passphrase: "), Ok::<String, MfjError>(s))
                    && unlocked_as(r, unlock_outcome(s@, blob@), self.name_view())) || (r
                == Err::<Identity<Unlocked>, MfjError>(MfjError::PassphraseUnavailable) && exists|e: MfjError|
                #[trigger] call_ensures(P::read, (passphrase, "Passphrase: "), Err::<String, MfjError>(e))),
            forall|s: String, salt: Seq<u8>, nonce: Seq<u8>, key: Seq<char>|
                #![trigger answers_only(passphrase, "Passphrase: ", s), identity_blob(salt, nonce, chacha_seal(argon2_kek(encode_utf8(s@), salt), nonce, encode_utf8(key)))]
                answers_only(passphrase, "Passphrase: ", s) && salt.len() == SALT_LEN && nonce.len() == NONCE_LEN
                && sealable_len(encode_utf8(key).len()) && encode_utf8(s@).len() <= MAX_PASSWORD_LEN
                && is_identity_text(key) && blob@ == identity_blob(
                    salt,
                    nonce,
                    chacha_seal(argon2_kek(encode_utf8(s@), salt), nonce, encode_utf8(key)),
                ) ==> (r matches Ok(i) && i@ == key && i.name_view() == self.name_view()),
    {
        if blob.len() < SALT_LEN {
            return Err(MfjError::MalformedSalt);
        }
        if blob.len() < SALT_LEN + NONCE_LEN {
            return Err(MfjError::MalformedNonce);
        }
        let read = passphrase.read("Passphrase: ");
        let pass = match read {
            Ok(p) => p,
            Err(e) => {
                assert(call_ensures(P::read, (passphrase, "Passphrase: "), Err::<String, MfjError>(e)));
                return Err(MfjError::PassphraseUnavailable);
            },
        };
        assert(call_ensures(P::read, (passphrase, "Passphrase: "), Ok::<String, MfjError>(pass)));
        let ghost name = self.name_view();
        let r = self.unlock_blob(blob, pass.as_str());
        proof {
            let o = unlock_with_kek(argon2_kek(encode_utf8(pass@), blob@.subrange(0, 16)), blob@);
            assert(o == unlock_with_kek(argon2_kek(encode_utf8(pass@), blob@.subrange(0, 16)), blob@));
            assert(unlocked_as(r, unlock_outcome(pass@, blob@), name));
            assert forall|s: String, salt: Seq<u8>, nonce: Seq<u8>, key: Seq<char>|
                answers_only(passphrase, "Passphrase: ", s) && salt.len() == SALT_LEN && nonce.len() == NONCE_LEN
                && sealable_len(encode_utf8(key).len()) && encode_utf8(s@).len() <= MAX_PASSWORD_LEN
                && is_identity_text(key) && blob@ == identity_blob(
                    salt,
                    nonce,
                    chacha_seal(argon2_kek(encode_utf8(s@), salt), nonce, encode_utf8(key)),
                ) implies (r matches Ok(i) && i@ == key && i.name_view() == name) by {
                assert(pass@ == s@);
                assert(blob@ == identity_blob(
                    salt,
                    nonce,
                    chacha_seal(argon2_kek(encode_utf8(pass@), salt), nonce, encode_utf8(key)),
                ));
            }
        }
        r
    }

    /// Creates an identity under a passphrase asked twice: a fresh key pair,
    /// then as `create_from` with its private key text, the two answers, and
    /// a fresh salt and nonce.  Refused when the private key file exists
    /// already (as `private_exists` tells), before anything is asked.
    pub fn create<P: PassphraseSource>(name: &IdentityName, private_exists: bool, passphrase: &P) -> (r:
        Result<NewIdentity, MfjError>)
        ensures
            private_exists ==> r == Err::<NewIdentity, MfjError>(MfjError::IdentityExists),
            r matches Err(e) ==> e == MfjError::PassphraseUnavailable || e == MfjError::PassphraseMismatch
                || e == MfjError::KeyDerivation || e == MfjError::Encryption || (e == MfjError::IdentityExists
                && private_exists),
            r matches Ok(n) ==> n.identity.name_view() == name@ && exists|pass: Seq<char>, key: Seq<char>|
                #[trigger] created_files(n, pass, key),
            !private_exists ==> (exists|s: String, c: String|
                #[trigger] call_ensures(P::read, (passphrase, "Passphrase: "), Ok::<String, MfjError>(s))
                    && #[trigger] call_ensures(P::read, (passphrase, "Confirm passphrase: "), Ok::<String, MfjError>(c))
                    && created_as(r, name@, s@, c@)) || (r == Err::<NewIdentity, MfjError>(
                MfjError::PassphraseUnavailable,
            ) && ((exists|e: MfjError|
                #[trigger] call_ensures(P::read, (passphrase, "Passphrase: "), Err::<String, MfjError>(e))) || (
            exists|e: MfjError|
                #[trigger] call_ensures(P::read, (passphrase, "Confirm passphrase: "), Err::<String, MfjError>(e))))),
            forall|s: String|
                #![trigger answers_only(passphrase, "Passphrase: ", s)]
                answers_only(passphrase, "Passphrase: ", s) ==> (r matches Ok(n) ==> exists|key: Seq<char>|
                    #[trigger] created_files(n, s@, key)),
    {
        if private_exists {
            return Err(MfjError::IdentityExists);
        }
        let key = generate_key();
        let read = passphrase.read("Passphrase: ");
        let pass = match read {
            Ok(p) => p,
            Err(e) => {
                assert(call_ensures(P::read, (passphrase, "Passphrase: "), Err::<String, MfjError>(e)));
                return Err(MfjError::PassphraseUnavailable);
            },
        };
        assert(call_ensures(P::read, (passphrase, "Passphrase: "), Ok::<String, MfjError>(pass)));
        let read2 = passphrase.read("Confirm passphrase: ");
        let conf = match read2 {
            Ok(p) => p,
            Err(e) => {
                assert(call_ensures(P::read, (passphrase, "Confirm passphrase: "), Err::<String, MfjError>(e)));
                return Err(MfjError::PassphraseUnavailable);
            },
        };
        assert(call_ensures(P::read, (passphrase, "Confirm passphrase: "), Ok::<String, MfjError>(conf)));
        let key_text = secret_text_of(&key);
        let salt = random_salt();
        let nonce = random_nonce();
        let r = Identity::create_from(name, false, key_text.as_str(), pass.as_str(), conf.as_str(), &salt, &nonce);
        assert(r matches Ok(n) ==> created_files(n, pass@, key_text@));
        assert(created_as(r, name@, pass@, conf@));
        proof {
            assert forall|s: String| answers_only(passphrase, "Passphrase: ", s) implies (r matches Ok(n)
                ==> exists|key: Seq<char>| #[trigger] created_files(n, s@, key)) by {
                assert(pass@ == s@);
                if r is Ok {
                    assert(created_files(r->Ok_0, s@, key_text@));
                }
            }
        }
        r
    }

    /// Creates the identity `name` from a private key text, the passphrase
    /// and its confirmation, a salt and a nonce: the private key sealed under
    /// the passphrase (see `seal_private_key`), and the public key text.
    /// Refused when the private key file exists already (as `private_exists`
    /// tells), when the confirmation differs from the passphrase, and when
    /// the text is not a private key.
    pub fn create_from(
        name: &IdentityName,
        private_exists: bool,
        key_text: &str,
        pass: &str,
        conf: &str,
        salt: &[u8; SALT_LEN],
        nonce: &[u8; NONCE_LEN],
    ) -> (r: Result<NewIdentity, MfjError>)
        ensures
            private_exists ==> r == Err::<NewIdentity, MfjError>(MfjError::IdentityExists),
            !private_exists && pass@ != conf@ ==> r == Err::<NewIdentity, MfjError>(MfjError::PassphraseMismatch),
            !private_exists && pass@ == conf@ && !is_identity_text(key_text@) ==> r == Err::<NewIdentity, MfjError>(
                MfjError::InvalidPrivateKey,
            ),
            !private_exists && pass@ == conf@ && is_identity_text(key_text@) ==> {
                &&& encode_utf8(pass@).len() > MAX_PASSWORD_LEN ==> r == Err::<NewIdentity, MfjError>(
                    MfjError::KeyDerivation,
                )
                &&& encode_utf8(pass@).len() <= MAX_PASSWORD_LEN && !sealable_len(encode_utf8(key_text@).len())
                    ==> r == Err::<NewIdentity, MfjError>(MfjError::Encryption)
                &&& encode_utf8(pass@).len() <= MAX_PASSWORD_LEN && sealable_len(encode_utf8(key_text@).len())
                    ==> (r matches Ok(n) && n.identity.name_view() == name@ && n.private_blob@ == identity_blob(
                    salt@,
                    nonce@,
                    chacha_seal(argon2_kek(encode_utf8(pass@), salt@), nonce@, encode_utf8(key_text@)),
                ) && n.public_text@ == public_key_text(key_text@))
            },
            r matches Ok(n) ==> created_files(n, pass@, key_text@),
    {
        if private_exists {
            return Err(MfjError::IdentityExists);
        }
        if pass.to_owned() != conf.to_owned() {
            return Err(MfjError::PassphraseMismatch);
        }
        let public_text = match public_key_of_text(key_text) {
            Ok(t) => t,
            Err(_) => {
                return Err(MfjError::InvalidPrivateKey);
            },
        };
        let private_blob = seal_private_key(pass, salt, nonce, key_text)?;
        proof {
            assert(private_blob@.subrange(0, 16) =~= salt@);
            assert(private_blob@.subrange(16, 28) =~= nonce@);
        }
        Ok(NewIdentity { identity: Identity { name: name.duplicate(), state: Locked }, private_blob, public_text })
    }

    /// The identities whose public key files are among `file_names` (the
    /// entries of the identities directory): a name with extension `pub`
    /// whose stem is a valid identity name.
    pub fn list(file_names: &Vec<String>) -> (r: Vec<Identity<Locked>>)
        ensures
            r@.map_values(|i: Identity<Locked>| i.name_view()) == listed_names(
                file_names@.map_values(|s: String| s@),
            ),
    {
        let mut out: Vec<Identity<Locked>> = Vec::new();
        let mut i: usize = 0;
        while i < file_names.len()
            invariant
                i <= file_names@.len(),
                out@.map_values(|i: Identity<Locked>| i.name_view()) == listed_names(
                    file_names@.map_values(|s: String| s@).take(i as int),
                ),
            decreases file_names@.len() - i,
        {
            let f = file_names[i].as_str();
            let ghost names = file_names@.map_values(|s: String| s@);
            proof {
                assert(names.take(i + 1).drop_last() =~= names.take(i as int));
                assert(names.take(i + 1).last() == f@);
            }
            let ext = path_extension(f);
            let is_pub = match &ext {
                Some(e) => is_pub_ext(e.as_str()),
                None => false,
            };
            if is_pub {
                match path_file_stem(f) {
                    Some(stem) => {
                        match Name::parse(stem.as_str()) {
                            Ok(n) => {
                                let ghost before = out@;
                                out.push(Identity { name: n, state: Locked });
                                proof {
                                    assert(out@.map_values(|i: Identity<Locked>| i.name_view())
                                        =~= before.map_values(|i: Identity<Locked>| i.name_view()).push(stem@));
                                }
                            },
                            Err(_) => {},
                        }
                    },
                    None => {},
                }
            }
            i += 1;
        }
        assert(file_names@.map_values(|s: String| s@).take(file_names@.len() as int)
            =~= file_names@.map_values(|s: String| s@));
        out
    }
}

fn is_pub_ext(e: &str) -> (b: bool)
    ensures
        b == (e@ == pub_ext()),
{
    proof {
        reveal_strlit("pub");
        assert("pub"@ =~= pub_ext());
    }
    e.to_owned() == "pub".to_owned()
}

pub open spec fn pub_ext() -> Seq<char> {
    seq!['p', 'u', 'b']
}

/// The identity name a directory entry stands for, if any.
pub open spec fn listed_name(f: Seq<char>) -> Option<Seq<char>> {
    if extension_of(f) == Some(pub_ext()) {
        match file_stem_of(f) {
            Some(stem) => match spec_parse::<crate::name::Identity>(stem) {
                Ok(n) => Some(n),
                Err(_) => None,
            },
            None => None,
        }
    } else {
        None
    }
}

/// The identity names directory entries stand for, in order.
pub open spec fn listed_names(fs: Seq<Seq<char>>) -> Seq<Seq<char>>
    decreases fs.len(),
{
    if fs.len() == 0 {
        seq![]
    } else {
        match listed_name(fs.last()) {
            Some(n) => listed_names(fs.drop_last()).push(n),
            None => listed_names(fs.drop_last()),
        }
    }
}

impl View for Identity<Unlocked> {
    type V = Seq<char>;

    /// The private key text.
    closed spec fn view(&self) -> Seq<char> {
        self.state.key_text@
    }
}

impl Identity<Unlocked> {
    /// The public key text of the identity.
    pub fn public_text(&self) -> (r: String)
        ensures
            r@ == public_key_text(self@),
    {
        proof {
            use_type_invariant(&self.state);
        }
        match public_key_of_text(self.state.key_text.as_str()) {
            Ok(t) => t,
            Err(_) => {
                proof {
                    assert(false);
                }
                String::new()
            },
        }
    }

    /// The decrypted age identity, parsed from the private key text.
    pub fn as_age(&self) -> X25519Identity {
        proof {
            use_type_invariant(&self.state);
        }
        identity_of_text(self.state.key_text.as_str())
    }

    /// The private key text.
    pub(crate) fn key_text(&self) -> (r: &str)
        ensures
            r@ == self@,
            is_identity_text(r@),
    {
        proof {
            use_type_invariant(&self.state);
        }
        self.state.key_text.as_str()
    }
}

/// The plaintext of the age file `file` for the private key `key_text`, or
/// `None` when that key cannot decrypt it.
pub uninterp spec fn age_open(key_text: Seq<char>, file: Seq<u8>) -> Option<Seq<u8>>;

/// `age::decrypt` with the age identity of a private key text (`FromStr`
/// for `age::x25519::Identity`).
///
/// Trusted: the parse succeeds on every private key text, and the result
/// depends only on the key and the file.
#[verifier::external_body]
pub(crate) fn age_decrypt(key_text: &str, file: &[u8]) -> (r: Option<Vec<u8>>)
    requires
        is_identity_text(key_text@),
    ensures
        match r {
            Some(v) => age_open(key_text@, file@) == Some(v@),
            None => age_open(key_text@, file@) is None,
        },
{
    match key_text.parse::<X25519Identity>() {
        Ok(id) => age::decrypt(&id, file).ok(),
        Err(_) => None,
    }
}

} // verus!
