//! Symmetric cryptography: ChaCha20-Poly1305 sealing, Argon2 key derivation,
//! random nonces and salts, and secret boxes for key material.

use argon2::Argon2;
use chacha20poly1305::aead::{Aead, KeyInit};
use chacha20poly1305::{ChaCha20Poly1305, Key, Nonce};
use rand::RngCore;
use secrecy::{ExposeSecret, SecretBox};
use vstd::prelude::*;

verus! {

pub const KEY_LEN: usize = 32;

pub const NONCE_LEN: usize = 12;

pub const SALT_LEN: usize = 16;

/// The largest number of 64-byte blocks ChaCha20 may process under one nonce
/// (the 32-bit block counter).
pub const MAX_BLOCKS: u64 = 0xFFFF_FFFF;

/// 32 bytes of key material kept in a `secrecy::SecretBox`, which wipes them
/// when dropped.  The box is opaque: `boxed_key` names the bytes it holds.
#[verifier::external_body]
pub struct KeyBox {
    inner: SecretBox<[u8; 32]>,
}

#[verifier::external_type_specification]
#[verifier::external_body]
pub struct ExAeadError(chacha20poly1305::Error);

#[verifier::external_type_specification]
#[verifier::external_body]
pub struct ExArgon2Error(argon2::Error);

/// The 32 key bytes a `KeyBox` holds.
pub uninterp spec fn boxed_key(b: KeyBox) -> Seq<u8>;

impl View for KeyBox {
    type V = Seq<u8>;

    open spec fn view(&self) -> Seq<u8> {
        boxed_key(*self)
    }
}

/// Moves 32 key bytes into a `secrecy::SecretBox` (`SecretBox::new`).
///
/// Trusted: the box holds exactly the bytes it was made with.
#[verifier::external_body]
pub(crate) fn box_key(bytes: [u8; 32]) -> (r: KeyBox)
    ensures
        boxed_key(r) == bytes@,
{
    KeyBox { inner: SecretBox::new(Box::new(bytes)) }
}

/// The bytes a `secrecy::SecretBox` holds (`ExposeSecret::expose_secret`).
///
/// Trusted: exposing gives back the bytes the box was made with.
#[verifier::external_body]
pub(crate) fn expose_key(b: &KeyBox) -> (r: &[u8; 32])
    ensures
        r@ == boxed_key(*b),
{
    b.inner.expose_secret()
}

/// The ChaCha20-Poly1305 ciphertext (with its 16-byte tag appended) of
/// `plaintext` under `key` and `nonce`, with no associated data.
pub uninterp spec fn chacha_seal(key: Seq<u8>, nonce: Seq<u8>, plaintext: Seq<u8>) -> Seq<u8>;

/// The plaintext ChaCha20-Poly1305 recovers from `ciphertext` under `key` and
/// `nonce`, or `None` when the tag does not authenticate it.
pub uninterp spec fn chacha_open(key: Seq<u8>, nonce: Seq<u8>, ciphertext: Seq<u8>) -> Option<
    Seq<u8>,
>;

/// Whether ChaCha20 can encrypt a message of `len` bytes under one nonce.
pub open spec fn sealable_len(len: nat) -> bool {
    len / 64 < MAX_BLOCKS
}

/// `ChaCha20Poly1305::encrypt` with no associated data.
///
/// Trusted: the crate refuses exactly the messages of `MAX_BLOCKS` blocks or
/// more, and otherwise returns the ciphertext followed by a 16-byte tag.
#[verifier::external_body]
fn chacha_encrypt(key: &[u8; 32], nonce: &[u8; 12], plaintext: &[u8]) -> (r: Result<
    Vec<u8>,
    chacha20poly1305::Error,
>)
    ensures
        r is Ok <==> sealable_len(plaintext@.len()),
        r matches Ok(c) ==> c@ == chacha_seal(key@, nonce@, plaintext@),
        r matches Ok(c) ==> c@.len() == plaintext@.len() + 16,
{
    ChaCha20Poly1305::new(Key::from_slice(key)).encrypt(Nonce::from_slice(nonce), plaintext)
}

/// `ChaCha20Poly1305::decrypt` with no associated data.
///
/// Trusted: the crate returns the authenticated plaintext when there is one;
/// a text shorter than the tag never authenticates; and, as for any AEAD,
/// decrypting what encryption produced under the same key and nonce gives
/// the message back.
#[verifier::external_body]
fn chacha_decrypt(key: &[u8; 32], nonce: &[u8; 12], ciphertext: &[u8]) -> (r: Result<
    Vec<u8>,
    chacha20poly1305::Error,
>)
    ensures
        r matches Ok(p) ==> chacha_open(key@, nonce@, ciphertext@) == Some(p@),
        r is Err ==> chacha_open(key@, nonce@, ciphertext@) is None,
        ciphertext@.len() < 16 ==> r is Err,
        (exists|p: Seq<u8>|
            #![trigger chacha_seal(key@, nonce@, p)]
            sealable_len(p.len()) && ciphertext@ == chacha_seal(key@, nonce@, p)) ==> r is Ok,
        r matches Ok(q) ==> forall|p: Seq<u8>|
            #![trigger chacha_seal(key@, nonce@, p)]
            sealable_len(p.len()) && ciphertext@ == chacha_seal(key@, nonce@, p) ==> q@ == p,
{
    ChaCha20Poly1305::new(Key::from_slice(key)).decrypt(Nonce::from_slice(nonce), ciphertext)
}

/// Encrypts `plaintext` under `key` and `nonce`.
pub fn encrypt(key: &[u8; KEY_LEN], nonce: &[u8; NONCE_LEN], plaintext: &[u8]) -> (r: Result<
    Vec<u8>,
    crate::error::MfjError,
>)
    ensures
        r is Ok <==> sealable_len(plaintext@.len()),
        r matches Ok(c) ==> c@ == chacha_seal(key@, nonce@, plaintext@) && c@.len()
            == plaintext@.len() + 16,
        r matches Err(e) ==> e == crate::error::MfjError::Encryption,
{
    match chacha_encrypt(key, nonce, plaintext) {
        Ok(c) => Ok(c),
        Err(_) => Err(crate::error::MfjError::Encryption),
    }
}

/// Decrypts `ciphertext` under `key` and `nonce`; it gives back what
/// `encrypt` sealed under the same key and nonce.
pub fn decrypt(key: &[u8; KEY_LEN], nonce: &[u8; NONCE_LEN], ciphertext: &[u8]) -> (r: Result<
    Vec<u8>,
    crate::error::MfjError,
>)
    ensures
        match r {
            Ok(p) => chacha_open(key@, nonce@, ciphertext@) == Some(p@),
            Err(e) => chacha_open(key@, nonce@, ciphertext@) is None && e == crate::error::MfjError::Decryption,
        },
        ciphertext@.len() < 16 ==> r is Err,
        forall|p: Seq<u8>|
            #![trigger chacha_seal(key@, nonce@, p)]
            sealable_len(p.len()) && ciphertext@ == chacha_seal(key@, nonce@, p) ==> (r matches Ok(
                q,
            ) && q@ == p),
{
    match chacha_decrypt(key, nonce, ciphertext) {
        Ok(p) => Ok(p),
        Err(_) => Err(crate::error::MfjError::Decryption),
    }
}

/// A fresh random nonce (`rand::rng().fill_bytes`).
///
/// Trusted: nothing is stated of the bytes, which are random.
#[verifier::external_body]
pub fn random_nonce() -> [u8; NONCE_LEN] {
    let mut nonce = [0u8;NONCE_LEN];
    rand::rng().fill_bytes(&mut nonce);
    nonce
}

/// A fresh random salt (`rand::rng().fill_bytes`).
///
/// Trusted: nothing is stated of the bytes, which are random.
#[verifier::external_body]
pub fn random_salt() -> [u8; SALT_LEN] {
    let mut salt = [0u8;SALT_LEN];
    rand::rng().fill_bytes(&mut salt);
    salt
}

/// 32 fresh random key bytes (`rand::rng().fill_bytes`).
///
/// Trusted: nothing is stated of the bytes, which are random.
#[verifier::external_body]
pub(crate) fn random_key() -> [u8; KEY_LEN] {
    let mut key = [0u8;KEY_LEN];
    rand::rng().fill_bytes(&mut key);
    key
}

/// The 32-byte key Argon2id with the crate's default parameters derives
/// from `password` and `salt`.
pub uninterp spec fn argon2_kek(password: Seq<u8>, salt: Seq<u8>) -> Seq<u8>;

/// The longest password Argon2 accepts, in bytes.
pub const MAX_PASSWORD_LEN: u64 = 0xFFFF_FFFF;

/// `Argon2::default().hash_password_into` with a 32-byte output.
///
/// Trusted: with the default parameters, a 16-byte salt and a 32-byte
/// output, the crate refuses exactly the passwords longer than
/// `MAX_PASSWORD_LEN`; when it succeeds the output is the derived key.
#[verifier::external_body]
fn argon2_hash(password: &[u8], salt: &[u8; 16]) -> (r: Result<[u8; 32], argon2::Error>)
    ensures
        r is Err <==> password@.len() > MAX_PASSWORD_LEN,
        r matches Ok(k) ==> k@ == argon2_kek(password@, salt@),
{
    let mut out = [0u8;32];
    match Argon2::default().hash_password_into(password, salt, &mut out) {
        Ok(()) => Ok(out),
        Err(e) => Err(e),
    }
}

/// Derives the key-encryption key of a passphrase and salt.
pub fn derive_kek(passphrase: &[u8], salt: &[u8; SALT_LEN]) -> (r: Result<
    KeyBox,
    crate::error::MfjError,
>)
    ensures
        r is Err <==> passphrase@.len() > MAX_PASSWORD_LEN,
        r matches Ok(k) ==> boxed_key(k) == argon2_kek(passphrase@, salt@),
        r matches Err(e) ==> e == crate::error::MfjError::KeyDerivation,
{
    match argon2_hash(passphrase, salt) {
        Ok(k) => Ok(box_key(k)),
        Err(_) => Err(crate::error::MfjError::KeyDerivation),
    }
}

} // verus!
