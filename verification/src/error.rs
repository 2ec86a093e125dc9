//! The errors of the library.

use crate::name::NameError;
use crate::text::IntErrorKind;
use vstd::prelude::*;

verus! {

/// Every way an operation of the library can fail.
#[derive(Debug, PartialEq, Eq)]
pub enum MfjError {
    /// A text was refused as a name.
    Name(NameError),
    /// No configuration was found; an identity must be created first.
    NoConfig,
    /// A header line of a secret file is not UTF-8.
    HeaderNotUtf8,
    /// The `mfj-created` stanza does not hold a `u64`.
    BadCreated(IntErrorKind),
    /// A secret header lacks its `mfj-name` stanza.
    MissingName,
    /// A secret header lacks its `mfj-type` stanza.
    MissingType,
    /// A secret header lacks its `mfj-created` stanza.
    MissingCreated,
    /// An env secret header carries an `mfj-target` stanza.
    UnexpectedTarget,
    /// A file secret header lacks its `mfj-target` stanza.
    MissingTarget,
    /// A secret header names a kind other than `env` and `file`.
    UnknownKind(String),
    /// A secret file has no `---` line ending its header.
    MissingSeparator,
    /// A secret's ciphertext is shorter than a nonce.
    MalformedCiphertext,
    /// ChaCha20-Poly1305 refused to encrypt (the message is too long).
    Encryption,
    /// ChaCha20-Poly1305 refused to decrypt: wrong key or corrupted data.
    Decryption,
    /// Argon2 refused to derive a key.
    KeyDerivation,
    /// An identity blob is too short to hold its salt.
    MalformedSalt,
    /// An identity blob is too short to hold its nonce.
    MalformedNonce,
    /// The passphrase could not be read.
    PassphraseUnavailable,
    /// The passphrase and its confirmation differ.
    PassphraseMismatch,
    /// A decrypted private key is not UTF-8.
    KeyNotUtf8,
    /// A private key text is not an age X25519 identity.
    InvalidPrivateKey,
    /// A public key text is not an age X25519 recipient.
    InvalidPublicKey,
    /// A secret of this name exists with the other kind.
    KindConflict,
    /// No secret of this name exists in the pocket.
    SecretNotFound,
    /// The pocket directory does not exist.
    PocketNotFound,
    /// The pocket directory exists already.
    PocketExists,
    /// The identity's private key file does not exist.
    IdentityNotFound,
    /// The identity's private key file exists already.
    IdentityExists,
    /// The identity is the configured default and cannot be removed.
    DefaultIdentity,
    /// A typed confirmation did not match.
    ConfirmationMismatch,
    /// A data-encryption key does not have 32 bytes; the length found.
    DekLength(usize),
    /// A keyring could not be decrypted with the identity.
    KeyringDecryption,
    /// A cached key is not hexadecimal text.
    InvalidHex,
    /// A source path has no final component usable as a secret name.
    InvalidSourcePath,
    /// The name derived from a source path is not a valid file secret name.
    DerivedName(NameError),
    /// No `.m65` directory lies between the working directory and `$HOME`.
    NoRepoBelowHome,
    /// The repository (a `.git` directory) holds no `.m65` directory.
    NoRepoInGitRepo,
    /// The search for `.m65` reached the filesystem root.
    NoRepoAtRoot,
}

} // verus!
