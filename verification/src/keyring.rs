//! Keyrings: a pocket's data-encryption key, encrypted with age to the
//! pocket's members.

use crate::dek::{Dek, DEK_BYTES};
use crate::error::MfjError;
use crate::identity::{age_decrypt, age_open, Identity, Unlocked};
use vstd::prelude::*;

verus! {

/// The bytes of a keyring file (an age file whose plaintext is the key).
pub struct Keyring {
    bytes: Vec<u8>,
}

impl View for Keyring {
    type V = Seq<u8>;

    closed spec fn view(&self) -> Seq<u8> {
        self.bytes@
    }
}

impl Keyring {
    /// The keyring with these file bytes.
    pub fn from_bytes(bytes: Vec<u8>) -> (r: Keyring)
        ensures
            r@ == bytes@,
    {
        Keyring { bytes }
    }

    /// The file bytes of the keyring.
    pub fn bytes(&self) -> (r: &[u8])
        ensures
            r@ == self@,
    {
        self.bytes.as_slice()
    }

    /// The pocket key the identity decrypts from this keyring: the age
    /// plaintext, which must be exactly 32 bytes.
    pub fn decrypt_dek(&self, identity: &Identity<Unlocked>) -> (r: Result<Dek, MfjError>)
        ensures
            match age_open(identity@, self@) {
                None => r == Err::<Dek, MfjError>(MfjError::KeyringDecryption),
                Some(p) => if p.len() == DEK_BYTES {
                    r matches Ok(d) && d@ == p
                } else {
                    r == Err::<Dek, MfjError>(MfjError::DekLength(p.len() as usize))
                },
            },
    {
        match age_decrypt(identity.key_text(), self.bytes.as_slice()) {
            Some(v) => Dek::from_bytes(v.as_slice()),
            None => Err(MfjError::KeyringDecryption),
        }
    }
}

} // verus!
