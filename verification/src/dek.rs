//! Data-encryption keys: the 32-byte key of a pocket, kept in a `KeyBox`.

use crate::crypto::{box_key, expose_key, random_key, KeyBox};
use crate::error::MfjError;
use vstd::prelude::*;

verus! {

broadcast use vstd::array::array_len_matches_n;

/// A pocket's data-encryption key.
pub struct Dek(KeyBox);

impl View for Dek {
    type V = Seq<u8>;

    closed spec fn view(&self) -> Seq<u8> {
        self.0@
    }
}

/// The length of every data-encryption key, in bytes.
pub const DEK_BYTES: usize = 32;

/// Copies a 32-byte slice into an array.
pub fn array32(b: &[u8]) -> (a: [u8; 32])
    requires
        b@.len() == 32,
    ensures
        a@ == b@,
{
    let mut a = [0u8;32];
    let mut i: usize = 0;
    while i < 32
        invariant
            b@.len() == 32,
            i <= 32,
            forall|j: int| 0 <= j < i ==> a@[j] == b@[j],
        decreases 32 - i,
    {
        a[i] = b[i];
        i += 1;
    }
    assert(a@ =~= b@);
    a
}

impl Dek {
    /// The key with the given bytes.
    pub fn new(bytes: [u8; DEK_BYTES]) -> (r: Dek)
        ensures
            r@ == bytes@,
    {
        Dek(box_key(bytes))
    }

    /// A fresh random key.
    pub fn new_random() -> (r: Dek)
        ensures
            r@.len() == DEK_BYTES,
    {
        let bytes = random_key();
        Dek::new(bytes)
    }

    /// The key with the given bytes, which must be exactly 32.
    pub fn from_bytes(bytes: &[u8]) -> (r: Result<Dek, MfjError>)
        ensures
            r is Ok <==> bytes@.len() == DEK_BYTES,
            r matches Ok(d) ==> d@ == bytes@,
            r matches Err(e) ==> e == MfjError::DekLength(bytes@.len() as usize),
    {
        if bytes.len() != DEK_BYTES {
            return Err(MfjError::DekLength(bytes.len()));
        }
        Ok(Dek::new(array32(bytes)))
    }

    /// The key bytes.
    pub fn expose(&self) -> (r: &[u8; DEK_BYTES])
        ensures
            r@ == self@,
    {
        expose_key(&self.0)
    }
}

} // verus!
