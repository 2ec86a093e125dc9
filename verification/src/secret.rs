//! Secrets and their `.enc` file format.
//!
//! A secret file is a UTF-8 header in the shape of an age header, then the
//! ciphertext:
//!
//! ```text
//! age-encryption.org/v1
//! -> mfj-type: env                (or: file, followed by -> mfj-target: PATH)
//! -> mfj-name: NAME
//! -> mfj-created: UNIX-SECONDS
//! ---
//! NONCE (12 bytes) || CHACHA20-POLY1305 CIPHERTEXT
//! ```
//!
//! The ciphertext seals the secret's value under the pocket's key.

use crate::crypto::{chacha_open, chacha_seal, decrypt, encrypt, random_nonce, sealable_len, NONCE_LEN};
use crate::error::MfjError;
use crate::identity::array12;
use crate::name::{EnvSecretName, FileSecretName, Name};
use crate::pocket::{Pocket, Unlocked};
use crate::stanza::{read_stanzas, read_stanzas_spec, Stanza, StanzaView, stanzas_view};
use crate::storage::{self, file_name_of, path_file_name, secret_spec};
use crate::text::{parse_u64, parse_u64_spec, u64_to_decimal, decimal};
use vstd::prelude::*;
use vstd::string::*;
use vstd::utf8::encode_utf8;

verus! {

broadcast use vstd::string::group_string_axioms;

/// The kind of a secret.
#[derive(Debug, PartialEq, Eq)]
pub enum SecretKind {
    /// An environment variable.
    Env,
    /// A file, to be placed at `target`.
    File { target: String },
}

/// The mathematical value of a `SecretKind`.
pub enum KindView {
    Env,
    File(Seq<char>),
}

impl View for SecretKind {
    type V = KindView;

    open spec fn view(&self) -> KindView {
        match self {
            SecretKind::Env => KindView::Env,
            SecretKind::File { target } => KindView::File(target@),
        }
    }
}

/// The header lines a kind contributes.
pub open spec fn kind_lines(k: KindView) -> Seq<char> {
    match k {
        KindView::Env => "-> mfj-type: env"@ + "\n"@,
        KindView::File(t) => "-> mfj-type: file"@ + "\n"@ + "-> mfj-target: "@ + t + "\n"@,
    }
}

impl SecretKind {
    /// The header lines of this kind.
    pub fn header_lines(&self) -> (r: String)
        ensures
            r@ == kind_lines(self@),
    {
        match self {
            SecretKind::Env => {
                let mut s = "-> mfj-type: env".to_owned();
                s.append("\n");
                s
            },
            SecretKind::File { target } => {
                let mut s = "-> mfj-type: file".to_owned();
                s.append("\n");
                s.append("-> mfj-target: ");
                s.append(target.as_str());
                s.append("\n");
                s
            },
        }
    }

    /// The kind's name, as displayed: `env` or `file`.
    pub fn kind_name(&self) -> (r: &'static str)
        ensures
            r@ == (match self@ {
                KindView::Env => "env"@,
                KindView::File(_) => "file"@,
            }),
    {
        match self {
            SecretKind::Env => "env",
            SecretKind::File { .. } => "file",
        }
    }

    /// Whether both kinds are the same variant.
    pub fn same_variant(&self, other: &SecretKind) -> (r: bool)
        ensures
            r == ((self@ is Env) == (other@ is Env)),
    {
        match (self, other) {
            (SecretKind::Env, SecretKind::Env) => true,
            (SecretKind::File { .. }, SecretKind::File { .. }) => true,
            _ => false,
        }
    }
}

/// What a secret's header records.
#[derive(Debug)]
pub struct SecretMeta {
    pub name: String,
    pub kind: SecretKind,
    pub created: u64,
}

/// The mathematical value of a `SecretMeta`.
pub struct MetaView {
    pub name: Seq<char>,
    pub kind: KindView,
    pub created: u64,
}

impl View for SecretMeta {
    type V = MetaView;

    open spec fn view(&self) -> MetaView {
        MetaView { name: self.name@, kind: self.kind@, created: self.created }
    }
}

/// The outcome of reading something: a value, an unknown kind (carrying its
/// text), or another failure.
pub enum Outcome<T> {
    Value(T),
    UnknownKind(Seq<char>),
    Fail(MfjError),
}

/// Whether the result `r` is the outcome `o`.
pub open spec fn outcome_matches<T: View>(r: Result<T, MfjError>, o: Outcome<T::V>) -> bool {
    match r {
        Ok(v) => o == Outcome::Value(v@),
        Err(MfjError::UnknownKind(k)) => o == Outcome::<T::V>::UnknownKind(k@),
        Err(e) => o == Outcome::<T::V>::Fail(e),
    }
}

/// The header fields found so far, the last of each tag winning.
pub struct Fields {
    pub name: Option<Seq<char>>,
    pub kind: Option<Seq<char>>,
    pub target: Option<Seq<char>>,
    pub created: Option<u64>,
}

pub open spec fn no_fields() -> Fields {
    Fields { name: None, kind: None, target: None, created: None }
}

pub open spec fn first_arg(args: Seq<Seq<char>>) -> Option<Seq<char>> {
    if args.len() > 0 {
        Some(args[0])
    } else {
        None
    }
}

/// Gathers the fields of the stanzas `st` onto `f`, in order; a
/// `mfj-created` argument that is not a `u64` fails at once.
pub open spec fn collect_fields(st: Seq<StanzaView>, f: Fields) -> Result<Fields, MfjError>
    decreases st.len(),
{
    if st.len() == 0 {
        Ok(f)
    } else {
        let s = st[0];
        let val = first_arg(s.args);
        if s.tag == "mfj-name"@ {
            collect_fields(st.drop_first(), Fields { name: val, ..f })
        } else if s.tag == "mfj-type"@ {
            collect_fields(st.drop_first(), Fields { kind: val, ..f })
        } else if s.tag == "mfj-target"@ {
            collect_fields(st.drop_first(), Fields { target: val, ..f })
        } else if s.tag == "mfj-created"@ {
            match val {
                None => collect_fields(st.drop_first(), Fields { created: None, ..f }),
                Some(v) => match parse_u64_spec(v) {
                    Ok(n) => collect_fields(st.drop_first(), Fields { created: Some(n), ..f }),
                    Err(k) => Err(MfjError::BadCreated(k)),
                },
            }
        } else {
            collect_fields(st.drop_first(), f)
        }
    }
}

/// The metadata the fields describe, or why not.
pub open spec fn meta_of_fields(f: Fields) -> Outcome<MetaView> {
    if f.name is None {
        Outcome::Fail(MfjError::MissingName)
    } else if f.kind is None {
        Outcome::Fail(MfjError::MissingType)
    } else if f.created is None {
        Outcome::Fail(MfjError::MissingCreated)
    } else if f.kind->0 == "env"@ {
        if f.target is Some {
            Outcome::Fail(MfjError::UnexpectedTarget)
        } else {
            Outcome::Value(MetaView { name: f.name->0, kind: KindView::Env, created: f.created->0 })
        }
    } else if f.kind->0 == "file"@ {
        if f.target is None {
            Outcome::Fail(MfjError::MissingTarget)
        } else {
            Outcome::Value(
                MetaView { name: f.name->0, kind: KindView::File(f.target->0), created: f.created->0 },
            )
        }
    } else {
        Outcome::UnknownKind(f.kind->0)
    }
}

/// The metadata the stanzas describe, or why not.
pub open spec fn meta_of_stanzas(st: Seq<StanzaView>) -> Outcome<MetaView> {
    match collect_fields(st, no_fields()) {
        Ok(f) => meta_of_fields(f),
        Err(e) => Outcome::Fail(e),
    }
}

fn text_is(s: &String, lit: &str) -> (b: bool)
    ensures
        b == (s@ == lit@),
{
    *s == lit.to_owned()
}

fn clone_opt(o: &Option<String>) -> (r: Option<String>)
    ensures
        match o {
            Some(s) => r matches Some(t) && t@ == s@,
            None => r is None,
        },
{
    match o {
        Some(s) => Some(s.clone()),
        None => None,
    }
}

pub open spec fn opt_view(o: Option<String>) -> Option<Seq<char>> {
    match o {
        Some(s) => Some(s@),
        None => None,
    }
}

impl SecretMeta {
    /// The metadata the header stanzas record.
    pub fn from_stanzas(stanzas: &[Stanza]) -> (r: Result<SecretMeta, MfjError>)
        ensures
            outcome_matches(r, meta_of_stanzas(stanzas_view(stanzas@))),
    {
        let mut name: Option<String> = None;
        let mut type_str: Option<String> = None;
        let mut target: Option<String> = None;
        let mut created: Option<u64> = None;
        let ghost st = stanzas_view(stanzas@);
        let mut i: usize = 0;
        assert(st.skip(0) =~= st);
        while i < stanzas.len()
            invariant
                i <= stanzas@.len(),
                st == stanzas_view(stanzas@),
                collect_fields(st, no_fields()) == collect_fields(
                    st.skip(i as int),
                    Fields {
                        name: opt_view(name),
                        kind: opt_view(type_str),
                        target: opt_view(target),
                        created,
                    },
                ),
            decreases stanzas@.len() - i,
        {
            let s = &stanzas[i];
            proof {
                assert(st.skip(i as int).drop_first() =~= st.skip(i + 1));
                assert(st.skip(i as int)[0] == s@);
            }
            let val: Option<String> = if s.args.len() > 0 {
                Some(s.args[0].clone())
            } else {
                None
            };
            assert(opt_view(val) == first_arg(s@.args));
            if text_is(&s.tag, "mfj-name") {
                name = val;
            } else if text_is(&s.tag, "mfj-type") {
                type_str = val;
            } else if text_is(&s.tag, "mfj-target") {
                target = val;
            } else if text_is(&s.tag, "mfj-created") {
                match val {
                    None => {
                        created = None;
                    },
                    Some(v) => match parse_u64(v.as_str()) {
                        Ok(n) => {
                            created = Some(n);
                        },
                        Err(k) => {
                            return Err(MfjError::BadCreated(k));
                        },
                    },
                }
            }
            i += 1;
        }
        assert(st.skip(i as int) =~= Seq::<StanzaView>::empty());
        let name = match name {
            Some(n) => n,
            None => {
                return Err(MfjError::MissingName);
            },
        };
        let type_str = match type_str {
            Some(t) => t,
            None => {
                return Err(MfjError::MissingType);
            },
        };
        let created = match created {
            Some(c) => c,
            None => {
                return Err(MfjError::MissingCreated);
            },
        };
        let kind = if text_is(&type_str, "env") {
            if target.is_some() {
                return Err(MfjError::UnexpectedTarget);
            }
            SecretKind::Env
        } else if text_is(&type_str, "file") {
            match target {
                Some(t) => SecretKind::File { target: t },
                None => {
                    return Err(MfjError::MissingTarget);
                },
            }
        } else {
            return Err(MfjError::UnknownKind(type_str));
        };
        Ok(SecretMeta { name, kind, created })
    }
}

/// The first index `>= i` where the separator line `---\n` starts in `b`.
pub open spec fn find_separator(b: Seq<u8>, i: int) -> Option<int>
    decreases b.len() - i,
{
    if i < 0 || i + 4 > b.len() {
        None
    } else if b[i] == 45u8 && b[i + 1] == 45u8 && b[i + 2] == 45u8 && b[i + 3] == 10u8 {
        Some(i)
    } else {
        find_separator(b, i + 1)
    }
}

/// What reading a secret file gives: its metadata and ciphertext.
pub open spec fn read_outcome(bytes: Seq<u8>) -> Outcome<SecretView> {
    match find_separator(bytes, 0) {
        None => Outcome::Fail(MfjError::MissingSeparator),
        Some(i) => match read_stanzas_spec(bytes.take(i)) {
            Err(e) => Outcome::Fail(e),
            Ok(st) => match meta_of_stanzas(st) {
                Outcome::Value(m) => Outcome::Value(
                    SecretView { meta: m, ciphertext: bytes.skip(i + 4) },
                ),
                Outcome::UnknownKind(k) => Outcome::UnknownKind(k),
                Outcome::Fail(e) => Outcome::Fail(e),
            },
        },
    }
}

/// A secret of a pocket: its file, metadata and ciphertext (nonce, then
/// sealed value).
#[derive(Debug)]
pub struct Secret {
    path: String,
    meta: SecretMeta,
    ciphertext: Vec<u8>,
}

/// The mathematical value of a `Secret`.
pub struct SecretView {
    pub meta: MetaView,
    pub ciphertext: Seq<u8>,
}

impl View for Secret {
    type V = SecretView;

    /// The file's path is not part of the value (see `path_view`): reading
    /// knows only the bytes.
    closed spec fn view(&self) -> SecretView {
        SecretView { meta: self.meta@, ciphertext: self.ciphertext@ }
    }
}

fn find_separator_exec(b: &[u8]) -> (r: Option<usize>)
    ensures
        match r {
            Some(i) => find_separator(b@, 0) == Some(i as int) && i + 4 <= b@.len(),
            None => find_separator(b@, 0) is None,
        },
{
    let n = b.len();
    if n < 4 {
        return None;
    }
    let mut i: usize = 0;
    while i <= n - 4
        invariant
            n == b@.len(),
            n >= 4,
            find_separator(b@, 0) == find_separator(b@, i as int),
        decreases n - i,
    {
        if b[i] == 45u8 && b[i + 1] == 45u8 && b[i + 2] == 45u8 && b[i + 3] == 10u8 {
            return Some(i);
        }
        i += 1;
    }
    None
}

/// The header of a secret file with this name, kind and creation time,
/// ending with the separator line.
pub open spec fn header_chars(name: Seq<char>, kind: KindView, created: u64) -> Seq<char> {
    joined_lines(header_lines(name, kind, created)) + "---\n"@
}

/// Each line followed by a line feed.
pub open spec fn joined_lines(ls: Seq<Seq<char>>) -> Seq<char>
    decreases ls.len(),
{
    if ls.len() == 0 {
        seq![]
    } else {
        ls[0] + "\n"@ + joined_lines(ls.drop_first())
    }
}

/// The lines of a secret header before its separator line.
pub open spec fn header_lines(name: Seq<char>, kind: KindView, created: u64) -> Seq<Seq<char>> {
    let first = "age-encryption.org/v1"@;
    let name_line = "-> mfj-name: "@ + name;
    let created_line = "-> mfj-created: "@ + decimal(created as nat);
    match kind {
        KindView::Env => seq![first, "-> mfj-type: env"@, name_line, created_line],
        KindView::File(t) => seq![
            first,
            "-> mfj-type: file"@,
            "-> mfj-target: "@ + t,
            name_line,
            created_line,
        ],
    }
}

/// The file of a secret: its header, then the nonce, then the sealed value.
pub open spec fn secret_file(header: Seq<char>, nonce: Seq<u8>, sealed: Seq<u8>) -> Seq<u8> {
    encode_utf8(header) + nonce + sealed
}

impl Secret {
    /// The path of the secret's file.
    pub closed spec fn path_view(&self) -> Seq<char> {
        self.path@
    }

    /// Reads a secret from the bytes of its file at `path`.
    pub fn read(path: &str, bytes: &[u8]) -> (r: Result<Secret, MfjError>)
        ensures
            outcome_matches(r, read_outcome(bytes@)),
            r matches Ok(s) ==> s.path_view() == path@,
    {
        let sep = match find_separator_exec(bytes) {
            Some(i) => i,
            None => {
                return Err(MfjError::MissingSeparator);
            },
        };
        let header = &bytes[0..sep];
        assert(header@ =~= bytes@.take(sep as int));
        proof {
            crate::stanza::lemma_read_stanzas_error(header@);
        }
        let stanzas = read_stanzas(header)?;
        let meta = SecretMeta::from_stanzas(stanzas.as_slice())?;
        let n = bytes.len();
        let rest = &bytes[sep + 4..n];
        let mut ciphertext: Vec<u8> = Vec::new();
        ciphertext.extend_from_slice(rest);
        assert(ciphertext@ =~= bytes@.skip(sep + 4));
        Ok(Secret { path: path.to_owned(), meta, ciphertext })
    }

    /// What the secret's header records.
    pub fn meta(&self) -> (r: &SecretMeta)
        ensures
            r@ == self@.meta,
    {
        &self.meta
    }

    /// The secret's file.
    pub fn path(&self) -> (r: &str)
        ensures
            r@ == self.path_view(),
    {
        self.path.as_str()
    }

    /// The secret's ciphertext: the nonce, then the sealed value.
    pub fn ciphertext(&self) -> (r: &[u8])
        ensures
            r@ == self@.ciphertext,
    {
        self.ciphertext.as_slice()
    }

    /// Decrypts the secret's value with the pocket's key.  A value sealed by
    /// `create` under the same key decrypts to itself.
    pub fn decrypt(&self, pocket: &Pocket<Unlocked>) -> (r: Result<Vec<u8>, MfjError>)
        ensures
            self@.ciphertext.len() < NONCE_LEN ==> r == Err::<Vec<u8>, MfjError>(MfjError::MalformedCiphertext),
            self@.ciphertext.len() >= NONCE_LEN ==> match chacha_open(
                pocket.dek_view(),
                self@.ciphertext.take(12),
                self@.ciphertext.skip(12),
            ) {
                Some(p) => r matches Ok(v) && v@ == p,
                None => r == Err::<Vec<u8>, MfjError>(MfjError::Decryption),
            },
            forall|p: Seq<u8>|
                #![trigger chacha_seal(pocket.dek_view(), self@.ciphertext.take(12), p)]
                self@.ciphertext.len() >= NONCE_LEN && sealable_len(p.len()) && self@.ciphertext.skip(12)
                    == chacha_seal(pocket.dek_view(), self@.ciphertext.take(12), p) ==> (r matches Ok(v)
                    && v@ == p),
    {
        if self.ciphertext.len() < NONCE_LEN {
            return Err(MfjError::MalformedCiphertext);
        }
        let n = self.ciphertext.len();
        let nonce = array12(&self.ciphertext.as_slice()[0..12]);
        let sealed = &self.ciphertext.as_slice()[12..n];
        proof {
            assert(nonce@ =~= self@.ciphertext.take(12));
            assert(sealed@ =~= self@.ciphertext.skip(12));
        }
        decrypt(pocket.dek().expose(), &nonce, sealed)
    }

    /// A new secret of the pocket: its header (name, kind, creation time
    /// `now`), a fresh nonce, and the value sealed under the pocket's key.
    /// Gives the secret and the bytes of its file.  A secret of that name
    /// already in the pocket (`existing`) must have the same kind.
    pub fn create(
        pocket: &Pocket<Unlocked>,
        name: &str,
        kind: SecretKind,
        plaintext: &[u8],
        existing: Option<&Secret>,
        now: u64,
    ) -> (r: Result<(Secret, Vec<u8>), MfjError>)
        ensures
            (existing matches Some(e) && (e@.meta.kind is Env) != (kind@ is Env)) ==> r
                == Err::<(Secret, Vec<u8>), MfjError>(MfjError::KindConflict),
            !(existing matches Some(e) && (e@.meta.kind is Env) != (kind@ is Env)) ==> (r is Ok
                <==> sealable_len(plaintext@.len())),
            r matches Err(e) ==> e == MfjError::KindConflict || e == MfjError::Encryption,
            r matches Ok((s, file)) ==> {
                &&& s@.meta == (MetaView { name: name@, kind: kind@, created: now })
                &&& s.path_view() == secret_spec(pocket.dir_view(), name@)
                &&& s@.ciphertext.len() >= NONCE_LEN
                &&& s@.ciphertext.skip(12) == chacha_seal(
                    pocket.dek_view(),
                    s@.ciphertext.take(12),
                    plaintext@,
                )
                &&& file@ == encode_utf8(header_chars(name@, kind@, now)) + s@.ciphertext
            },
    {
        match existing {
            Some(e) => {
                if !e.meta.kind.same_variant(&kind) {
                    return Err(MfjError::KindConflict);
                }
            },
            None => {},
        }
        let mut header = "age-encryption.org/v1".to_owned();
        header.append("\n");
        header.append(kind.header_lines().as_str());
        header.append("-> mfj-name: ");
        header.append(name);
        header.append("\n");
        header.append("-> mfj-created: ");
        header.append(u64_to_decimal(now).as_str());
        header.append("\n");
        header.append("---\n");
        let nonce = random_nonce();
        let sealed = encrypt(pocket.dek().expose(), &nonce, plaintext)?;
        let mut ciphertext: Vec<u8> = Vec::new();
        ciphertext.extend_from_slice(&nonce);
        ciphertext.extend_from_slice(sealed.as_slice());
        let mut file: Vec<u8> = Vec::new();
        file.extend_from_slice(header.as_str().as_bytes());
        file.extend_from_slice(ciphertext.as_slice());
        proof {
            let ls = header_lines(name@, kind@, now);
            assert(joined_lines(ls.skip(ls.len() as int)) =~= seq![]);
            reveal_with_fuel(joined_lines, 6);
            assert(header@ =~= header_chars(name@, kind@, now));
            assert(ciphertext@.take(12) =~= nonce@);
            assert(ciphertext@.skip(12) =~= sealed@);
            assert(file@ =~= encode_utf8(header@) + ciphertext@);
        }
        let path = pocket.secret_path(name);
        let secret = Secret {
            path,
            meta: SecretMeta { name: name.to_owned(), kind, created: now },
            ciphertext,
        };
        Ok((secret, file))
    }

    /// A new environment-variable secret (see `create`).
    pub fn create_env(
        pocket: &Pocket<Unlocked>,
        name: &EnvSecretName,
        value: &[u8],
        existing: Option<&Secret>,
        now: u64,
    ) -> (r: Result<(Secret, Vec<u8>), MfjError>)
        ensures
            (existing matches Some(e) && !(e@.meta.kind is Env)) ==> r == Err::<(Secret, Vec<u8>), MfjError>(MfjError::KindConflict),
            !(existing matches Some(e) && !(e@.meta.kind is Env)) ==> (r is Ok <==> sealable_len(value@.len())),
            r matches Ok((s, file)) ==> {
                &&& s@.meta == (MetaView { name: name@, kind: KindView::Env, created: now })
                &&& s.path_view() == secret_spec(pocket.dir_view(), name@)
                &&& s@.ciphertext.len() >= NONCE_LEN
                &&& s@.ciphertext.skip(12) == chacha_seal(pocket.dek_view(), s@.ciphertext.take(12), value@)
                &&& file@ == encode_utf8(header_chars(name@, KindView::Env, now)) + s@.ciphertext
            },
    {
        Secret::create(pocket, name.as_str(), SecretKind::Env, value, existing, now)
    }

    /// A new file secret from the contents of the file `source`, to be placed
    /// at `target` (by default `source`), named `name` (by default the final
    /// component of `source`, see `resolve_file_name`).
    pub fn create_file(
        pocket: &Pocket<Unlocked>,
        source: &str,
        target: Option<&str>,
        name: Option<&FileSecretName>,
        contents: &[u8],
        existing: Option<&Secret>,
        now: u64,
    ) -> (r: Result<(Secret, Vec<u8>), MfjError>)
        ensures
            match resolved_name(source@, opt_name_view(name)) {
                Err(e) => r == Err::<(Secret, Vec<u8>), MfjError>(e),
                Ok(n) => {
                    let t = match target {
                        Some(t) => t@,
                        None => source@,
                    };
                    &&& (existing matches Some(e) && (e@.meta.kind is Env)) ==> r == Err::<(Secret, Vec<u8>), MfjError>(MfjError::KindConflict)
                    &&& !(existing matches Some(e) && (e@.meta.kind is Env)) ==> (r is Ok <==> sealable_len(contents@.len()))
                    &&& r matches Ok((s, file)) ==> {
                        &&& s@.meta == (MetaView { name: n, kind: KindView::File(t), created: now })
                        &&& s.path_view() == secret_spec(pocket.dir_view(), n)
                        &&& s@.ciphertext.len() >= NONCE_LEN
                        &&& s@.ciphertext.skip(12) == chacha_seal(pocket.dek_view(), s@.ciphertext.take(12), contents@)
                        &&& file@ == encode_utf8(header_chars(n, KindView::File(t), now)) + s@.ciphertext
                    }
                },
            },
    {
        let resolved = resolve_file_name(source, name)?;
        let target_str: String = match target {
            Some(t) => t.to_owned(),
            None => source.to_owned(),
        };
        Secret::create(
            pocket,
            resolved.as_str(),
            SecretKind::File { target: target_str },
            contents,
            existing,
            now,
        )
    }
}

pub open spec fn opt_name_view(n: Option<&FileSecretName>) -> Option<Seq<char>> {
    match n {
        Some(x) => Some(x@),
        None => None,
    }
}

/// The name of a file secret: the given one, else the final component of
/// the source path, which must be a valid file secret name.
pub open spec fn resolved_name(source: Seq<char>, name: Option<Seq<char>>) -> Result<Seq<char>, MfjError> {
    match name {
        Some(n) => Ok(n),
        None => match file_name_of(source) {
            None => Err(MfjError::InvalidSourcePath),
            Some(raw) => match crate::name::spec_parse::<crate::name::FileSecret>(raw) {
                Ok(n) => Ok(n),
                Err(e) => Err(MfjError::DerivedName(e)),
            },
        },
    }
}

/// Resolves the name of a file secret (see `resolved_name`).
pub fn resolve_file_name(source: &str, name: Option<&FileSecretName>) -> (r: Result<FileSecretName, MfjError>)
    ensures
        match resolved_name(source@, opt_name_view(name)) {
            Ok(n) => r matches Ok(m) && m@ == n,
            Err(e) => r == Err::<FileSecretName, MfjError>(e),
        },
{
    match name {
        Some(n) => Ok(n.duplicate()),
        None => match path_file_name(source) {
            None => Err(MfjError::InvalidSourcePath),
            Some(raw) => match Name::parse(raw.as_str()) {
                Ok(n) => Ok(n),
                Err(e) => Err(MfjError::DerivedName(e)),
            },
        },
    }
}

} // verus!
