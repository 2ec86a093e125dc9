//! Pockets: directories of secrets sharing one data-encryption key.
//!
//! A pocket is `Locked` until its key is known, from the session cache or
//! from its keyring and an unlocked identity.

use crate::config::Config;
use crate::dek::Dek;
use crate::error::MfjError;
use crate::crypto::{argon2_kek, chacha_seal, sealable_len, MAX_PASSWORD_LEN, NONCE_LEN, SALT_LEN};
use crate::identity::{
    age_open, is_identity_text, unlock_outcome, unlock_with_kek, unlocked_as, Identity, UnlockOutcome,
    Unlocked as IdentityUnlocked,
};
use crate::io::{answers_only, PassphraseSource};
use crate::keyring::Keyring;
use crate::name::{IdentityName, Name, PocketName};
use crate::secret::{outcome_matches, read_outcome, Secret};
use crate::session::{establish, live_entry, SessionRecord};
use crate::storage::{self, extension_of, path_extension, pocket_dir_spec, secret_spec};
use vstd::prelude::*;
use vstd::utf8::encode_utf8;

verus! {

/// The pocket's key is not known.
pub struct Locked;

/// The pocket's key is known.
pub struct Unlocked {
    dek: Dek,
}

/// A pocket in state `S`.
pub struct Pocket<S> {
    name: PocketName,
    dir: String,
    state: S,
}

impl<S> Pocket<S> {
    pub closed spec fn name_view(&self) -> Seq<char> {
        self.name@
    }

    pub closed spec fn dir_view(&self) -> Seq<char> {
        self.dir@
    }

    /// The pocket's name.
    pub fn name(&self) -> (r: &PocketName)
        ensures
            r@ == self.name_view(),
    {
        &self.name
    }

    /// The pocket's directory.
    pub fn dir(&self) -> (r: &str)
        ensures
            r@ == self.dir_view(),
    {
        self.dir.as_str()
    }

    /// The file of the secret `name` in this pocket.
    pub fn secret_path(&self, name: &str) -> (r: String)
        ensures
            r@ == secret_spec(self.dir_view(), name@),
    {
        storage::secret(self.dir.as_str(), name)
    }

    /// The secret files among the entries of the pocket's directory (as
    /// paths): those whose extension is `enc`, in order.
    pub fn secrets(&self, entries: &Vec<String>) -> (r: Vec<String>)
        ensures
            r@.map_values(|s: String| s@) == enc_entries(entries@.map_values(|s: String| s@)),
            forall|i: int|
                0 <= i < entries@.len() && extension_of(#[trigger] entries@[i]@) == Some(seq!['e', 'n', 'c'])
                    ==> exists|j: int| 0 <= j < r@.len() && #[trigger] r@[j]@ == entries@[i]@,
            forall|j: int|
                0 <= j < r@.len() ==> extension_of(#[trigger] r@[j]@) == Some(seq!['e', 'n', 'c']) && exists|i: int|
                    0 <= i < entries@.len() && #[trigger] entries@[i]@ == r@[j]@,
    {
        let mut out: Vec<String> = Vec::new();
        let mut i: usize = 0;
        while i < entries.len()
            invariant
                i <= entries@.len(),
                out@.map_values(|s: String| s@) == enc_entries(
                    entries@.map_values(|s: String| s@).take(i as int),
                ),
            decreases entries@.len() - i,
        {
            let e = entries[i].as_str();
            let ghost fs = entries@.map_values(|s: String| s@);
            proof {
                assert(fs.take(i + 1).drop_last() =~= fs.take(i as int));
                assert(fs.take(i + 1).last() == e@);
            }
            let is_enc = match path_extension(e) {
                Some(x) => is_enc_ext(x.as_str()),
                None => false,
            };
            if is_enc {
                let ghost before = out@;
                out.push(e.to_owned());
                proof {
                    assert(out@.map_values(|s: String| s@) =~= before.map_values(|s: String| s@).push(e@));
                }
            }
            i += 1;
        }
        assert(entries@.map_values(|s: String| s@).take(entries@.len() as int) =~= entries@.map_values(
            |s: String| s@,
        ));
        proof {
            let fs = entries@.map_values(|s: String| s@);
            let rs = out@.map_values(|s: String| s@);
            lemma_enc_entries_exact(fs);
            assert forall|i: int|
                0 <= i < entries@.len() && extension_of(#[trigger] entries@[i]@) == Some(seq!['e', 'n', 'c'])
                    implies exists|j: int| 0 <= j < out@.len() && #[trigger] out@[j]@ == entries@[i]@ by {
                assert(fs[i] == entries@[i]@);
                assert(rs.contains(fs[i]));
                let j = choose|j: int| 0 <= j < rs.len() && rs[j] == fs[i];
                assert(rs[j] == out@[j]@);
            }
            assert forall|j: int| 0 <= j < out@.len() implies extension_of(#[trigger] out@[j]@) == Some(
                seq!['e', 'n', 'c'],
            ) && exists|i: int| 0 <= i < entries@.len() && #[trigger] entries@[i]@ == out@[j]@ by {
                assert(rs[j] == out@[j]@);
                assert(fs.contains(rs[j]));
                let i = choose|i: int| 0 <= i < fs.len() && fs[i] == rs[j];
                assert(fs[i] == entries@[i]@);
            }
        }
        out
    }

    /// The secret `name`, given the contents of its file (`None` when the
    /// file does not exist).
    pub fn secret(&self, name: &str, contents: Option<&[u8]>) -> (r: Result<Secret, MfjError>)
        ensures
            contents is None ==> (r matches Err(e) && e == MfjError::SecretNotFound),
            contents matches Some(b) ==> outcome_matches(r, read_outcome(b@)),
            r matches Ok(s) ==> s.path_view() == secret_spec(self.dir_view(), name@),
    {
        match contents {
            None => Err(MfjError::SecretNotFound),
            Some(b) => {
                let path = self.secret_path(name);
                Secret::read(path.as_str(), b)
            },
        }
    }
}

impl Pocket<Locked> {
    /// A new pocket `name` in the repository `repo_root`; refused when its
    /// directory exists already (as `exists` tells).  Its keyring and
    /// directories are made by the caller.
    pub fn create(name: &PocketName, repo_root: &str, exists: bool) -> (r: Result<Pocket<Locked>, MfjError>)
        ensures
            exists <==> r is Err,
            r matches Err(e) ==> e == MfjError::PocketExists,
            r matches Ok(p) ==> p.name_view() == name@ && p.dir_view() == pocket_dir_spec(repo_root@, name@),
    {
        if exists {
            return Err(MfjError::PocketExists);
        }
        let dir = storage::pocket_dir(repo_root, name.as_str());
        Ok(Pocket { name: name.duplicate(), dir, state: Locked })
    }

    /// The pocket `name` of the repository `repo_root`, whose directory must
    /// exist (as `exists` tells).
    pub fn open(name: &PocketName, repo_root: &str, exists: bool) -> (r: Result<Pocket<Locked>, MfjError>)
        ensures
            exists <==> r is Ok,
            r matches Err(e) ==> e == MfjError::PocketNotFound,
            r matches Ok(p) ==> p.name_view() == name@ && p.dir_view() == pocket_dir_spec(repo_root@, name@),
    {
        if !exists {
            return Err(MfjError::PocketNotFound);
        }
        let dir = storage::pocket_dir(repo_root, name.as_str());
        Ok(Pocket { name: name.duplicate(), dir, state: Locked })
    }

    /// Unlocks the pocket with the key cached for `pocket_key`, if that
    /// entry is live at `now`; otherwise gives the pocket back locked.
    pub fn resume(self, record: &SessionRecord, pocket_key: &str, now: u64) -> (r: Result<
        Pocket<Unlocked>,
        Pocket<Locked>,
    >)
        ensures
            match r {
                Ok(p) => record@.contains_key(pocket_key@) && now < record@[pocket_key@].1
                    && p.dek_view() == record@[pocket_key@].0 && p.name_view() == self.name_view()
                    && p.dir_view() == self.dir_view(),
                Err(p) => !(record@.contains_key(pocket_key@) && now < record@[pocket_key@].1)
                    && p.name_view() == self.name_view() && p.dir_view() == self.dir_view(),
            },
    {
        match record.get(pocket_key, now) {
            Some(dek) => Ok(self.into_unlocked(dek)),
            None => Err(self),
        }
    }

    /// Unlocks the pocket with the key the identity decrypts from the
    /// pocket's keyring.
    pub fn unlock_with(self, identity: &Identity<IdentityUnlocked>, keyring: &Keyring) -> (r: Result<
        Pocket<Unlocked>,
        MfjError,
    >)
        ensures
            match age_open(identity@, keyring@) {
                None => r matches Err(e) && e == MfjError::KeyringDecryption,
                Some(k) => if k.len() == 32 {
                    r matches Ok(p) && p.dek_view() == k && p.name_view() == self.name_view()
                        && p.dir_view() == self.dir_view()
                } else {
                    r matches Err(e) && e == MfjError::DekLength(k.len() as usize)
                },
            },
    {
        let dek = keyring.decrypt_dek(identity)?;
        Ok(self.into_unlocked(dek))
    }

    /// Unlocks the pocket: with the key cached for `pocket_key` if that entry
    /// is live at `now`; otherwise the default identity of `config` (whose
    /// private key file holds `identity_blob`, `None` when it does not exist)
    /// is unlocked with a passphrase, decrypts the pocket key from the
    /// keyring, and the key is cached for the configured lifetime.
    pub fn unlock<P: PassphraseSource>(
        self,
        record: &mut SessionRecord,
        pocket_key: &str,
        now: u64,
        config: &Config,
        identity_blob: Option<&[u8]>,
        keyring: &Keyring,
        passphrase: &P,
    ) -> (r: Result<Pocket<Unlocked>, MfjError>)
        requires
            live_entry(old(record)@, pocket_key@, now) is None ==> now + config.session_ttl_seconds
                <= u64::MAX,
        ensures
            r matches Ok(p) ==> p.name_view() == self.name_view() && p.dir_view() == self.dir_view(),
            live_entry(old(record)@, pocket_key@, now) matches Some(k) ==> (r matches Ok(p)
                && p.dek_view() == k && final(record)@ == old(record)@),
            live_entry(old(record)@, pocket_key@, now) is None ==> {
                &&& r is Err ==> final(record)@ == old(record)@
                &&& crate::name::spec_parse::<crate::name::Identity>(config.default_identity@) matches Err(e)
                    ==> r == Err::<Pocket<Unlocked>, MfjError>(MfjError::Name(e))
                &&& (crate::name::spec_parse::<crate::name::Identity>(config.default_identity@) is Ok
                    && identity_blob is None) ==> r == Err::<Pocket<Unlocked>, MfjError>(MfjError::IdentityNotFound)
                &&& r matches Ok(p) ==> (identity_blob matches Some(b) && exists|pass: Seq<char>, t: Seq<char>|
                    encode_utf8(pass).len() <= MAX_PASSWORD_LEN && #[trigger] unlock_with_kek(
                        argon2_kek(encode_utf8(pass), b@.subrange(0, 16)),
                        b@,
                    ) == UnlockOutcome::Unlocked(t) && #[trigger] age_open(t, keyring@) == Some(p.dek_view()))
                    && final(record)@ == old(record)@.insert(
                        pocket_key@,
                        (p.dek_view(), (now + config.session_ttl_seconds) as u64),
                    )
                &&& r matches Ok(p) ==> (identity_blob matches Some(b) && exists|s: String, t: Seq<char>|
                    #[trigger] call_ensures(P::read, (passphrase, "Passphrase: "), Ok::<String, MfjError>(s))
                        && unlock_outcome(s@, b@) == UnlockOutcome::Unlocked(t) && #[trigger] age_open(t, keyring@)
                        == Some(p.dek_view()))
                &&& forall|s: String, salt: Seq<u8>, nonce: Seq<u8>, t: Seq<char>|
                    #![trigger answers_only(passphrase, "Passphrase: ", s), crate::identity::identity_blob(salt, nonce, chacha_seal(argon2_kek(encode_utf8(s@), salt), nonce, encode_utf8(t)))]
                    crate::name::spec_parse::<crate::name::Identity>(config.default_identity@) is Ok
                        && identity_blob is Some && answers_only(passphrase, "Passphrase: ", s) && salt.len()
                        == SALT_LEN && nonce.len() == NONCE_LEN && sealable_len(encode_utf8(t).len())
                        && encode_utf8(s@).len() <= MAX_PASSWORD_LEN && is_identity_text(t)
                        && identity_blob.unwrap()@ == crate::identity::identity_blob(
                        salt,
                        nonce,
                        chacha_seal(argon2_kek(encode_utf8(s@), salt), nonce, encode_utf8(t)),
                    ) && age_open(t, keyring@) is Some && age_open(t, keyring@).unwrap().len() == 32 ==> (r matches Ok(
                        p,
                    ) && p.dek_view() == age_open(t, keyring@).unwrap() && final(record)@ == old(record)@.insert(
                        pocket_key@,
                        (p.dek_view(), (now + config.session_ttl_seconds) as u64),
                    ))
            },
    {
        let locked = match self.resume(record, pocket_key, now) {
            Ok(p) => {
                return Ok(p);
            },
            Err(p) => p,
        };
        let name: IdentityName = match Name::parse(config.default_identity.as_str()) {
            Ok(n) => n,
            Err(e) => {
                return Err(MfjError::Name(e));
            },
        };
        let blob = match identity_blob {
            Some(b) => b,
            None => {
                return Err(MfjError::IdentityNotFound);
            },
        };
        let id = Identity::open(&name, true)?;
        let id = match id.unlock(blob, passphrase) {
            Ok(i) => i,
            Err(e) => {
                return Err(e);
            },
        };
        let p = match locked.unlock_with(&id, keyring) {
            Ok(p) => p,
            Err(e) => {
                proof {
                    assert forall|s: String, salt: Seq<u8>, nonce: Seq<u8>, t: Seq<char>|
                        answers_only(passphrase, "Passphrase: ", s) && salt.len() == SALT_LEN && nonce.len()
                            == NONCE_LEN && sealable_len(encode_utf8(t).len()) && encode_utf8(s@).len()
                            <= MAX_PASSWORD_LEN && is_identity_text(t) && blob@ == crate::identity::identity_blob(
                            salt,
                            nonce,
                            chacha_seal(argon2_kek(encode_utf8(s@), salt), nonce, encode_utf8(t)),
                        ) && age_open(t, keyring@) is Some implies age_open(t, keyring@).unwrap().len() != 32 by {
                        assert(id@ == t);
                    }
                }
                return Err(e);
            },
        };
        proof {
            assert forall|s: String, salt: Seq<u8>, nonce: Seq<u8>, t: Seq<char>|
                answers_only(passphrase, "Passphrase: ", s) && salt.len() == SALT_LEN && nonce.len() == NONCE_LEN
                    && sealable_len(encode_utf8(t).len()) && encode_utf8(s@).len() <= MAX_PASSWORD_LEN
                    && is_identity_text(t) && blob@ == crate::identity::identity_blob(
                    salt,
                    nonce,
                    chacha_seal(argon2_kek(encode_utf8(s@), salt), nonce, encode_utf8(t)),
                ) implies id@ == t by {}
            let s0 = choose|s: String|
                #[trigger] call_ensures(P::read, (passphrase, "Passphrase: "), Ok::<String, MfjError>(s))
                    && unlocked_as(Ok::<Identity<IdentityUnlocked>, MfjError>(id), unlock_outcome(s@, blob@), name@);
            assert(unlock_outcome(s0@, blob@) == UnlockOutcome::Unlocked(id@));
        }
        proof {
            let pass = choose|pass: Seq<char>|
                encode_utf8(pass).len() <= MAX_PASSWORD_LEN && #[trigger] unlock_with_kek(
                    argon2_kek(encode_utf8(pass), blob@.subrange(0, 16)),
                    blob@,
                ) == UnlockOutcome::Unlocked(id@);
            assert(unlock_with_kek(argon2_kek(encode_utf8(pass), blob@.subrange(0, 16)), blob@)
                == UnlockOutcome::Unlocked(id@));
            assert(age_open(id@, keyring@) == Some(p.dek_view()));
        }
        establish(record, pocket_key, p.dek(), config, now);
        Ok(p)
    }

    /// The same pocket, unlocked with `dek`.
    pub fn into_unlocked(self, dek: Dek) -> (r: Pocket<Unlocked>)
        ensures
            r.dek_view() == dek@,
            r.name_view() == self.name_view(),
            r.dir_view() == self.dir_view(),
    {
        Pocket { name: self.name, dir: self.dir, state: Unlocked { dek } }
    }
}

impl Pocket<Unlocked> {
    pub closed spec fn dek_view(&self) -> Seq<u8> {
        self.state.dek@
    }

    /// The pocket's data-encryption key.
    pub fn dek(&self) -> (r: &Dek)
        ensures
            r@ == self.dek_view(),
    {
        &self.state.dek
    }
}

fn is_enc_ext(e: &str) -> (b: bool)
    ensures
        b == (e@ == enc_ext()),
{
    proof {
        reveal_strlit("enc");
        assert("enc"@ =~= enc_ext());
    }
    e.to_owned() == "enc".to_owned()
}

pub open spec fn enc_ext() -> Seq<char> {
    seq!['e', 'n', 'c']
}

/// The entries whose extension is `enc`, in order.
pub open spec fn enc_entries(fs: Seq<Seq<char>>) -> Seq<Seq<char>>
    decreases fs.len(),
{
    if fs.len() == 0 {
        seq![]
    } else if extension_of(fs.last()) == Some(enc_ext()) {
        enc_entries(fs.drop_last()).push(fs.last())
    } else {
        enc_entries(fs.drop_last())
    }
}

/// The entries listed as secret files are exactly the entries whose
/// extension is `enc`: each such entry is listed, each listed one is such an
/// entry, and no more are listed than there are entries.
pub proof fn lemma_enc_entries_exact(fs: Seq<Seq<char>>)
    ensures
        forall|i: int|
            0 <= i < fs.len() && extension_of(#[trigger] fs[i]) == Some(seq!['e', 'n', 'c'])
                ==> enc_entries(fs).contains(fs[i]),
        forall|j: int|
            0 <= j < enc_entries(fs).len() ==> fs.contains(#[trigger] enc_entries(fs)[j]) && extension_of(
                enc_entries(fs)[j],
            ) == Some(seq!['e', 'n', 'c']),
        enc_entries(fs).len() <= fs.len(),
    decreases fs.len(),
{
    assert(enc_ext() =~= seq!['e', 'n', 'c']);
    if fs.len() > 0 {
        let p = fs.drop_last();
        lemma_enc_entries_exact(p);
        let e = enc_entries(fs);
        let ep = enc_entries(p);
        assert forall|i: int|
            0 <= i < fs.len() && extension_of(#[trigger] fs[i]) == Some(seq!['e', 'n', 'c'])
                implies e.contains(fs[i]) by {
            if i < fs.len() - 1 {
                assert(p[i] == fs[i]);
                assert(ep.contains(fs[i]));
                let k = choose|k: int| 0 <= k < ep.len() && ep[k] == fs[i];
                if extension_of(fs.last()) == Some(enc_ext()) {
                    assert(e[k] == ep[k]);
                } else {
                    assert(e[k] == ep[k]);
                }
            } else {
                assert(e[e.len() - 1] == fs.last());
            }
        }
        assert forall|j: int| 0 <= j < e.len() implies fs.contains(#[trigger] e[j]) && extension_of(e[j]) == Some(
            seq!['e', 'n', 'c'],
        ) by {
            if j < ep.len() {
                assert(e[j] == ep[j]);
                assert(fs.contains(ep[j]) && extension_of(ep[j]) == Some(seq!['e', 'n', 'c']));
                let k = choose|k: int| 0 <= k < p.len() && p[k] == ep[j];
                assert(fs[k] == p[k]);
            } else {
                assert(e[j] == fs.last());
                assert(fs[fs.len() - 1] == fs.last());
            }
        }
    }
}

} // verus!
