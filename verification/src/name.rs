//! Validated names for pockets, identities and secrets.
//!
//! A `Name<K>` can only be built by `Name::parse`, which checks that the text
//! is non-empty, no longer than `K`'s byte limit, and obeys `K`'s character
//! rules.  Every `Name` therefore satisfies those rules (its type invariant).

use crate::text::chars_of;
use core::marker::PhantomData;
use vstd::prelude::*;
use vstd::utf8::encode_utf8;

verus! {

/// Why a text was refused as a name.
#[derive(Debug, Clone, Copy, PartialEq, Eq)]
pub enum NameError {
    /// The text is empty.
    Empty,
    /// The text is longer (in UTF-8 bytes) than `max`.
    TooLong { max: usize },
    /// A character lies outside the allowed set of the kind.
    Charset,
    /// An environment name starts with an ASCII digit.
    LeadingDigit,
    /// A file name holds `/`, `\` or NUL; `c` is the first such character.
    ForbiddenChar { c: char },
    /// A file name holds a control character.
    ControlChar,
}

pub open spec fn is_ascii_lowercase(c: char) -> bool {
    'a' <= c && c <= 'z'
}

pub open spec fn is_ascii_uppercase(c: char) -> bool {
    'A' <= c && c <= 'Z'
}

pub open spec fn is_ascii_digit(c: char) -> bool {
    '0' <= c && c <= '9'
}

pub open spec fn is_ascii_alphanumeric(c: char) -> bool {
    is_ascii_lowercase(c) || is_ascii_uppercase(c) || is_ascii_digit(c)
}

/// Unicode general category Cc: U+0000..=U+001F and U+007F..=U+009F.
pub open spec fn is_control(c: char) -> bool {
    (c as u32) <= 0x1f || (0x7f <= (c as u32) && (c as u32) <= 0x9f)
}

/// The characters allowed in pocket and identity names: `[a-z0-9-]`.
pub open spec fn is_slug_char(c: char) -> bool {
    is_ascii_lowercase(c) || is_ascii_digit(c) || c == '-'
}

/// The characters allowed in environment secret names: `[A-Za-z0-9_]`.
pub open spec fn is_env_char(c: char) -> bool {
    is_ascii_alphanumeric(c) || c == '_'
}

/// The characters a file secret name may never hold, reported by value.
pub open spec fn is_path_char(c: char) -> bool {
    c == '/' || c == '\\' || c == '\0'
}

/// The outcome of the slug rule on `s`.
pub open spec fn slug_check(s: Seq<char>) -> Result<(), NameError> {
    if forall|i: int| 0 <= i < s.len() ==> is_slug_char(#[trigger] s[i]) {
        Ok(())
    } else {
        Err(NameError::Charset)
    }
}

/// The outcome of the environment-variable rule on `s`.
pub open spec fn env_check(s: Seq<char>) -> Result<(), NameError> {
    if s.len() > 0 && is_ascii_digit(s[0]) {
        Err(NameError::LeadingDigit)
    } else if forall|i: int| 0 <= i < s.len() ==> is_env_char(#[trigger] s[i]) {
        Ok(())
    } else {
        Err(NameError::Charset)
    }
}

/// The outcome of the file-name rule on `s`: the first offending character
/// decides the error.
pub open spec fn file_check(s: Seq<char>) -> Result<(), NameError>
    decreases s.len(),
{
    if s.len() == 0 {
        Ok(())
    } else if is_path_char(s[0]) {
        Err(NameError::ForbiddenChar { c: s[0] })
    } else if is_control(s[0]) {
        Err(NameError::ControlChar)
    } else {
        file_check(s.drop_first())
    }
}

fn is_slug_char_exec(c: char) -> (b: bool)
    ensures
        b == is_slug_char(c),
{
    ('a' <= c && c <= 'z') || ('0' <= c && c <= '9') || c == '-'
}

fn is_ascii_digit_exec(c: char) -> (b: bool)
    ensures
        b == is_ascii_digit(c),
{
    '0' <= c && c <= '9'
}

fn is_env_char_exec(c: char) -> (b: bool)
    ensures
        b == is_env_char(c),
{
    ('a' <= c && c <= 'z') || ('A' <= c && c <= 'Z') || ('0' <= c && c <= '9') || c == '_'
}

fn is_control_exec(c: char) -> (b: bool)
    ensures
        b == is_control(c),
{
    let u = c as u32;
    u <= 0x1f || (0x7f <= u && u <= 0x9f)
}

fn slug_validate(s: &str) -> (r: Result<(), NameError>)
    ensures
        r == slug_check(s@),
{
    let v = chars_of(s);
    let mut i: usize = 0;
    while i < v.len()
        invariant
            v@ == s@,
            i <= v.len(),
            forall|j: int| 0 <= j < i ==> is_slug_char(#[trigger] v@[j]),
        decreases v.len() - i,
    {
        if !is_slug_char_exec(v[i]) {
            return Err(NameError::Charset);
        }
        i += 1;
    }
    Ok(())
}

/// The rules of one kind of name.
pub trait NameRules {
    /// The longest accepted name, in UTF-8 bytes.
    spec fn spec_max_len() -> usize;

    /// The outcome of the kind's character rules on `s`.
    spec fn spec_check(s: Seq<char>) -> Result<(), NameError>;

    /// The kind's name in messages ("pocket", "identity", ...).
    fn kind() -> &'static str;

    fn max_len() -> (r: usize)
        ensures
            r == Self::spec_max_len(),
    ;

    /// Checks the kind's character rules.
    fn validate(s: &str) -> (r: Result<(), NameError>)
        ensures
            r == Self::spec_check(s@),
    ;
}

/// Names of pockets.
#[derive(Clone, Copy, Debug, PartialEq, Eq)]
pub struct Pocket;

impl NameRules for Pocket {
    open spec fn spec_max_len() -> usize {
        64
    }

    open spec fn spec_check(s: Seq<char>) -> Result<(), NameError> {
        slug_check(s)
    }

    fn kind() -> (r: &'static str)
        ensures
            r@ == "pocket"@,
    {
        "pocket"
    }

    fn max_len() -> (r: usize) {
        64
    }

    fn validate(s: &str) -> (r: Result<(), NameError>) {
        slug_validate(s)
    }
}

/// Names of identities.
#[derive(Clone, Copy, Debug, PartialEq, Eq)]
pub struct Identity;

impl NameRules for Identity {
    open spec fn spec_max_len() -> usize {
        64
    }

    open spec fn spec_check(s: Seq<char>) -> Result<(), NameError> {
        slug_check(s)
    }

    fn kind() -> (r: &'static str)
        ensures
            r@ == "identity"@,
    {
        "identity"
    }

    fn max_len() -> (r: usize) {
        64
    }

    fn validate(s: &str) -> (r: Result<(), NameError>) {
        slug_validate(s)
    }
}

/// Names of environment-variable secrets.
#[derive(Clone, Copy, Debug, PartialEq, Eq)]
pub struct EnvSecret;

impl NameRules for EnvSecret {
    open spec fn spec_max_len() -> usize {
        256
    }

    open spec fn spec_check(s: Seq<char>) -> Result<(), NameError> {
        env_check(s)
    }

    fn kind() -> (r: &'static str)
        ensures
            r@ == "env secret"@,
    {
        "env secret"
    }

    fn max_len() -> (r: usize) {
        256
    }

    fn validate(s: &str) -> (r: Result<(), NameError>) {
        let v = chars_of(s);
        if v.len() > 0 && is_ascii_digit_exec(v[0]) {
            return Err(NameError::LeadingDigit);
        }
        let mut i: usize = 0;
        while i < v.len()
            invariant
                v@ == s@,
                i <= v.len(),
                !(v@.len() > 0 && is_ascii_digit(v@[0])),
                forall|j: int| 0 <= j < i ==> is_env_char(#[trigger] v@[j]),
            decreases v.len() - i,
        {
            if !is_env_char_exec(v[i]) {
                return Err(NameError::Charset);
            }
            i += 1;
        }
        Ok(())
    }
}

/// Names of file secrets.
#[derive(Clone, Copy, Debug, PartialEq, Eq)]
pub struct FileSecret;

impl NameRules for FileSecret {
    open spec fn spec_max_len() -> usize {
        256
    }

    open spec fn spec_check(s: Seq<char>) -> Result<(), NameError> {
        file_check(s)
    }

    fn kind() -> (r: &'static str)
        ensures
            r@ == "file secret"@,
    {
        "file secret"
    }

    fn max_len() -> (r: usize) {
        256
    }

    fn validate(s: &str) -> (r: Result<(), NameError>) {
        let v = chars_of(s);
        let mut i: usize = 0;
        assert(v@.skip(0) =~= v@);
        while i < v.len()
            invariant
                v@ == s@,
                i <= v.len(),
                file_check(s@) == file_check(v@.skip(i as int)),
            decreases v.len() - i,
        {
            let c = v[i];
            assert(v@.skip(i as int).drop_first() =~= v@.skip(i + 1));
            if c == '/' || c == '\\' || c == '\0' {
                return Err(NameError::ForbiddenChar { c });
            }
            if is_control_exec(c) {
                return Err(NameError::ControlChar);
            }
            i += 1;
        }
        assert(v@.skip(i as int).len() == 0);
        Ok(())
    }
}

/// The outcome of parsing `s` as a name of kind `K`: the text itself, or the
/// first rule it breaks (emptiness, then length, then characters).
pub open spec fn spec_parse<K: NameRules>(s: Seq<char>) -> Result<Seq<char>, NameError> {
    if s.len() == 0 {
        Err(NameError::Empty)
    } else if encode_utf8(s).len() > K::spec_max_len() {
        Err(NameError::TooLong { max: K::spec_max_len() })
    } else {
        match K::spec_check(s) {
            Ok(()) => Ok(s),
            Err(e) => Err(e),
        }
    }
}

/// A name that obeys the rules of `K`.
#[derive(Debug, PartialEq, Eq)]
pub struct Name<K: NameRules>(String, PhantomData<K>);

pub type PocketName = Name<Pocket>;

pub type IdentityName = Name<Identity>;

pub type EnvSecretName = Name<EnvSecret>;

pub type FileSecretName = Name<FileSecret>;

impl<K: NameRules> View for Name<K> {
    type V = Seq<char>;

    closed spec fn view(&self) -> Seq<char> {
        self.0@
    }
}

impl<K: NameRules> Name<K> {
    #[verifier::type_invariant]
    closed spec fn obeys_rules(self) -> bool {
        spec_parse::<K>(self.0@) == Ok::<Seq<char>, NameError>(self.0@)
    }

    /// Parses `s` as a name of kind `K`.
    pub fn parse(s: &str) -> (r: Result<Self, NameError>)
        ensures
            match r {
                Ok(n) => spec_parse::<K>(s@) == Ok::<Seq<char>, NameError>(n@),
                Err(e) => spec_parse::<K>(s@) == Err::<Seq<char>, NameError>(e),
            },
    {
        if s.is_empty() {
            return Err(NameError::Empty);
        }
        let max = K::max_len();
        if s.as_bytes().len() > max {
            return Err(NameError::TooLong { max });
        }
        match K::validate(s) {
            Ok(()) => Ok(Name(s.to_owned(), PhantomData)),
            Err(e) => Err(e),
        }
    }

    /// The text of the name; it always parses back to the same name.
    pub fn as_str(&self) -> (r: &str)
        ensures
            r@ == self@,
            spec_parse::<K>(r@) == Ok::<Seq<char>, NameError>(r@),
    {
        proof {
            use_type_invariant(self);
        }
        self.0.as_str()
    }

    /// A second name with the same text.
    pub fn duplicate(&self) -> (r: Self)
        ensures
            r@ == self@,
    {
        proof {
            use_type_invariant(self);
        }
        Name(self.0.clone(), PhantomData)
    }
}

/// A pocket name is accepted exactly when it is non-empty, at most 64 bytes
/// long, and made only of the characters `a`-`z`, `0`-`9` and `-`.
pub proof fn lemma_pocket_name_accepted(s: Seq<char>)
    ensures
        spec_parse::<Pocket>(s) is Ok <==> (s.len() > 0 && encode_utf8(s).len() <= 64 && forall|i: int|
            0 <= i < s.len() ==> ('a' <= #[trigger] s[i] && s[i] <= 'z') || ('0' <= s[i] && s[i] <= '9') || s[i]
                == '-'),
        spec_parse::<Pocket>(s) matches Ok(n) ==> n == s,
{
}

/// An identity name is accepted exactly when it is non-empty, at most 64
/// bytes long, and made only of the characters `a`-`z`, `0`-`9` and `-`.
pub proof fn lemma_identity_name_accepted(s: Seq<char>)
    ensures
        spec_parse::<Identity>(s) is Ok <==> (s.len() > 0 && encode_utf8(s).len() <= 64 && forall|i: int|
            0 <= i < s.len() ==> ('a' <= #[trigger] s[i] && s[i] <= 'z') || ('0' <= s[i] && s[i] <= '9') || s[i]
                == '-'),
        spec_parse::<Identity>(s) matches Ok(n) ==> n == s,
{
}

/// An environment secret name is accepted exactly when it is non-empty, at
/// most 256 bytes long, does not start with `0`-`9`, and is made only of
/// `A`-`Z`, `a`-`z`, `0`-`9` and `_`.
pub proof fn lemma_env_name_accepted(s: Seq<char>)
    ensures
        spec_parse::<EnvSecret>(s) is Ok <==> (s.len() > 0 && encode_utf8(s).len() <= 256 && !('0' <= s[0]
            && s[0] <= '9') && forall|i: int|
            0 <= i < s.len() ==> ('a' <= #[trigger] s[i] && s[i] <= 'z') || ('A' <= s[i] && s[i] <= 'Z') || (
            '0' <= s[i] && s[i] <= '9') || s[i] == '_'),
        spec_parse::<EnvSecret>(s) matches Ok(n) ==> n == s,
{
}

proof fn lemma_file_check_ok(s: Seq<char>)
    ensures
        file_check(s) is Ok <==> forall|i: int|
            0 <= i < s.len() ==> #[trigger] s[i] != '/' && s[i] != '\\' && s[i] != '\0' && !((s[i] as u32)
                <= 0x1f || (0x7f <= (s[i] as u32) && (s[i] as u32) <= 0x9f)),
    decreases s.len(),
{
    if s.len() > 0 {
        lemma_file_check_ok(s.drop_first());
        assert forall|i: int| 0 <= i < s.drop_first().len() implies #[trigger] s.drop_first()[i] == s[i + 1] by {}
        if file_check(s) is Ok {
            assert forall|i: int| 0 <= i < s.len() implies #[trigger] s[i] != '/' && s[i] != '\\' && s[i]
                != '\0' && !((s[i] as u32) <= 0x1f || (0x7f <= (s[i] as u32) && (s[i] as u32) <= 0x9f)) by {
                if i > 0 {
                    assert(s[i] == s.drop_first()[i - 1]);
                }
            }
        }
    }
}

/// A file secret name is accepted exactly when it is non-empty, at most 256
/// bytes long, and holds no `/`, `\`, NUL or control character.
pub proof fn lemma_file_name_accepted(s: Seq<char>)
    ensures
        spec_parse::<FileSecret>(s) is Ok <==> (s.len() > 0 && encode_utf8(s).len() <= 256 && forall|i: int|
            0 <= i < s.len() ==> #[trigger] s[i] != '/' && s[i] != '\\' && s[i] != '\0' && !((s[i] as u32)
                <= 0x1f || (0x7f <= (s[i] as u32) && (s[i] as u32) <= 0x9f))),
        spec_parse::<FileSecret>(s) matches Ok(n) ==> n == s,
{
    lemma_file_check_ok(s);
}

} // verus!
