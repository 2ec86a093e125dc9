//! Where things live on disk.  Paths are UTF-8 text; joining follows
//! `std::path::Path::join`.
//!
//! Global state lives under `$HOME/.m65`; pockets live under `.m65` in a
//! repository root.

use crate::error::MfjError;
use std::path::Path;
use vstd::prelude::*;
use vstd::string::*;

verus! {

/// The path `Path::new(base).join(part)` denotes.
pub uninterp spec fn joined(base: Seq<char>, part: Seq<char>) -> Seq<char>;

/// `Path::join` on UTF-8 paths.
///
/// Trusted: the result is the joined path, read back as text (joining two
/// UTF-8 paths gives a UTF-8 path, so reading it back loses nothing).  How
/// the parts combine depends on the platform's path rules, which the name
/// leaves unsaid.
#[verifier::external_body]
pub(crate) fn path_join(base: &str, part: &str) -> (r: String)
    ensures
        r@ == joined(base@, part@),
{
    Path::new(base).join(part).to_string_lossy().into_owned()
}

/// Whether `Path::new(a) == Path::new(b)` (paths compare by components).
pub uninterp spec fn same_path(a: Seq<char>, b: Seq<char>) -> bool;

/// `==` on `Path`.
///
/// Trusted: the result is the comparison of the two paths.
#[verifier::external_body]
pub(crate) fn path_eq(a: &str, b: &str) -> (r: bool)
    ensures
        r == same_path(a@, b@),
{
    Path::new(a) == Path::new(b)
}

/// The parent `Path::parent` gives for `p`, if any.
pub uninterp spec fn parent_path(p: Seq<char>) -> Option<Seq<char>>;

/// `Path::parent` on a UTF-8 path.
///
/// Trusted: the result is the parent the standard library computes.
#[verifier::external_body]
pub(crate) fn path_parent(p: &str) -> (r: Option<String>)
    ensures
        match r {
            Some(q) => parent_path(p@) == Some(q@),
            None => parent_path(p@) is None,
        },
{
    match Path::new(p).parent() {
        Some(q) => Some(q.to_string_lossy().into_owned()),
        None => None,
    }
}

/// The final component `Path::file_name` gives for `p`, if any.
pub uninterp spec fn file_name_of(p: Seq<char>) -> Option<Seq<char>>;

/// `Path::file_name` on a UTF-8 path.
///
/// Trusted: the result is the final component the standard library finds.
#[verifier::external_body]
pub(crate) fn path_file_name(p: &str) -> (r: Option<String>)
    ensures
        match r {
            Some(q) => file_name_of(p@) == Some(q@),
            None => file_name_of(p@) is None,
        },
{
    match Path::new(p).file_name() {
        Some(q) => Some(q.to_string_lossy().into_owned()),
        None => None,
    }
}

/// The extension `Path::extension` gives for `p`, if any.
pub uninterp spec fn extension_of(p: Seq<char>) -> Option<Seq<char>>;

/// `Path::extension` on a UTF-8 path.
///
/// Trusted: the result is the extension the standard library finds.
#[verifier::external_body]
pub(crate) fn path_extension(p: &str) -> (r: Option<String>)
    ensures
        match r {
            Some(q) => extension_of(p@) == Some(q@),
            None => extension_of(p@) is None,
        },
{
    match Path::new(p).extension() {
        Some(q) => Some(q.to_string_lossy().into_owned()),
        None => None,
    }
}

/// The stem `Path::file_stem` gives for `p`, if any.
pub uninterp spec fn file_stem_of(p: Seq<char>) -> Option<Seq<char>>;

/// `Path::file_stem` on a UTF-8 path.
///
/// Trusted: the result is the stem the standard library finds.
#[verifier::external_body]
pub(crate) fn path_file_stem(p: &str) -> (r: Option<String>)
    ensures
        match r {
            Some(q) => file_stem_of(p@) == Some(q@),
            None => file_stem_of(p@) is None,
        },
{
    match Path::new(p).file_stem() {
        Some(q) => Some(q.to_string_lossy().into_owned()),
        None => None,
    }
}

pub open spec fn m65_dir_name() -> Seq<char> {
    seq!['.', 'm', '6', '5']
}

pub open spec fn pub_suffix() -> Seq<char> {
    seq!['.', 'p', 'u', 'b']
}

pub open spec fn enc_suffix() -> Seq<char> {
    seq!['.', 'e', 'n', 'c']
}

/// The name of the directory that holds identities, configuration and pockets.
pub fn m65_dir_str() -> (r: &'static str)
    ensures
        r@ == m65_dir_name(),
{
    proof {
        reveal_strlit(".m65");
    }
    ".m65"
}

/// `name` followed by `suffix`.
pub fn with_suffix(name: &str, suffix: &str) -> (r: String)
    ensures
        r@ == name@ + suffix@,
{
    let mut s = name.to_owned();
    s.append(suffix);
    s
}

/// `$HOME/.m65`.
pub open spec fn m65_home_spec(home: Seq<char>) -> Seq<char> {
    joined(home, m65_dir_name())
}

/// The global directory `$HOME/.m65`, given `$HOME`.
pub fn m65_home(home: &str) -> (r: String)
    ensures
        r@ == m65_home_spec(home@),
{
    path_join(home, m65_dir_str())
}

/// The configuration file `$HOME/.m65/config`.
pub fn config(home: &str) -> (r: String)
    ensures
        r@ == joined(m65_home_spec(home@), "config"@),
{
    path_join(&m65_home(home), "config")
}

/// The session file `$HOME/.m65/session`.
pub fn session(home: &str) -> (r: String)
    ensures
        r@ == joined(m65_home_spec(home@), "session"@),
{
    path_join(&m65_home(home), "session")
}

pub open spec fn identities_dir_spec(home: Seq<char>) -> Seq<char> {
    joined(m65_home_spec(home), "identities"@)
}

/// The directory of identities `$HOME/.m65/identities`.
pub fn identities_dir(home: &str) -> (r: String)
    ensures
        r@ == identities_dir_spec(home@),
{
    path_join(&m65_home(home), "identities")
}

/// The encrypted private key of an identity: `$HOME/.m65/identities/NAME`.
pub fn identity_private(home: &str, name: &str) -> (r: String)
    ensures
        r@ == joined(identities_dir_spec(home@), name@),
{
    path_join(&identities_dir(home), name)
}

/// The public key of an identity: `$HOME/.m65/identities/NAME.pub`.
pub fn identity_public(home: &str, name: &str) -> (r: String)
    ensures
        r@ == joined(identities_dir_spec(home@), name@ + pub_suffix()),
{
    proof {
        reveal_strlit(".pub");
        assert(".pub"@ =~= pub_suffix());
    }
    let file = with_suffix(name, ".pub");
    path_join(&identities_dir(home), &file)
}

pub open spec fn pockets_dir_spec(repo: Seq<char>) -> Seq<char> {
    joined(repo, m65_dir_name())
}

/// The directory of pockets of a repository: `REPO/.m65`.
pub fn pockets_dir(repo: &str) -> (r: String)
    ensures
        r@ == pockets_dir_spec(repo@),
{
    path_join(repo, m65_dir_str())
}

pub open spec fn pocket_dir_spec(repo: Seq<char>, name: Seq<char>) -> Seq<char> {
    joined(pockets_dir_spec(repo), name)
}

/// The directory of one pocket: `REPO/.m65/NAME`.
pub fn pocket_dir(repo: &str, name: &str) -> (r: String)
    ensures
        r@ == pocket_dir_spec(repo@, name@),
{
    path_join(&pockets_dir(repo), name)
}

/// The keyring of a pocket: `POCKET/keyring`.
pub fn keyring(pocket_dir: &str) -> (r: String)
    ensures
        r@ == joined(pocket_dir@, "keyring"@),
{
    path_join(pocket_dir, "keyring")
}

pub open spec fn secret_spec(pocket_dir: Seq<char>, name: Seq<char>) -> Seq<char> {
    joined(pocket_dir, name + enc_suffix())
}

/// The file of one secret: `POCKET/NAME.enc`.
pub fn secret(pocket_dir: &str, name: &str) -> (r: String)
    ensures
        r@ == secret_spec(pocket_dir@, name@),
{
    proof {
        reveal_strlit(".enc");
        assert(".enc"@ =~= enc_suffix());
    }
    let file = with_suffix(name, ".enc");
    path_join(pocket_dir, &file)
}

/// One step of the search for a repository root, upward from the working
/// directory: stop at `$HOME`, accept a directory holding `.m65`, refuse a
/// repository root (`.git`) without it, else go to the parent.
pub enum RepoRootStep {
    /// The directory is the repository root.
    Found(String),
    /// Look at this parent next.
    Ascend(String),
    /// The search failed.
    Fail(MfjError),
}

/// The step the search takes at `current`, where `m65_is_dir` tells whether
/// `current/.m65` is a directory and `git_exists` whether `current/.git`
/// exists.
pub fn repo_root_step(current: &str, home: &str, m65_is_dir: bool, git_exists: bool) -> (r:
    RepoRootStep)
    ensures
        same_path(current@, home@) ==> r == RepoRootStep::Fail(MfjError::NoRepoBelowHome),
        !same_path(current@, home@) && m65_is_dir ==> (r matches RepoRootStep::Found(p) && p@
            == current@),
        !same_path(current@, home@) && !m65_is_dir && git_exists ==> r == RepoRootStep::Fail(
            MfjError::NoRepoInGitRepo,
        ),
        !same_path(current@, home@) && !m65_is_dir && !git_exists ==> match parent_path(current@) {
            Some(q) => r matches RepoRootStep::Ascend(p) && p@ == q,
            None => r == RepoRootStep::Fail(MfjError::NoRepoAtRoot),
        },
{
    if path_eq(current, home) {
        return RepoRootStep::Fail(MfjError::NoRepoBelowHome);
    }
    if m65_is_dir {
        return RepoRootStep::Found(current.to_owned());
    }
    if git_exists {
        return RepoRootStep::Fail(MfjError::NoRepoInGitRepo);
    }
    match path_parent(current) {
        Some(p) => RepoRootStep::Ascend(p),
        None => RepoRootStep::Fail(MfjError::NoRepoAtRoot),
    }
}

} // verus!
