//! What the library asks of its caller: passphrases and typed confirmations.

use crate::error::MfjError;
use crate::text::{trim, trim_spec};
use vstd::prelude::*;

verus! {

/// A source of passphrases (a terminal prompt, or a test's fixed answers).
pub trait PassphraseSource {
    /// Asks for a passphrase with `prompt`.
    fn read(&self, prompt: &str) -> Result<String, MfjError>;
}

/// Whether the passphrase source `src`, asked with `prompt`, can only answer
/// `s`: reading may give `s` (or another text equal to it), and never fails.
pub open spec fn answers_only<P: PassphraseSource>(src: &P, prompt: &str, s: String) -> bool {
    &&& call_ensures(P::read, (src, prompt), Ok::<String, MfjError>(s))
    &&& forall|s2: String| #[trigger] call_ensures(P::read, (src, prompt), Ok::<String, MfjError>(s2)) ==> s2@ == s@
    &&& forall|e: MfjError| !#[trigger] call_ensures(P::read, (src, prompt), Err::<String, MfjError>(e))
}

/// A source of typed confirmations.
pub trait Confirm {
    /// Asks the user to type `expected` after `prompt`; tells whether they did.
    fn confirm(&self, prompt: &str, expected: &str) -> Result<bool, MfjError>;
}

/// Whether a typed line confirms `expected`: it does once surrounding
/// whitespace (the line feed among it) is removed.
pub fn confirmation_matches(input: &str, expected: &str) -> (r: bool)
    ensures
        r == (trim_spec(input@) == expected@),
{
    trim(input) == expected.to_owned()
}

} // verus!
