//! The session cache: pocket keys unlocked recently, each until its expiry.
//!
//! The cache maps a pocket key (its canonical directory) to the pocket's
//! data-encryption key and the UNIX time at which that entry expires.  An
//! entry is live while `now < expires`.  Reading and writing the cache file
//! happens outside the library; the library decides what to keep, what to
//! give back and what to do with the file.

use crate::config::Config;
use crate::dek::{array32, Dek};
use crate::error::MfjError;
use crate::hexcode::{hex_decode, hex_decode_spec, hex_encode, hex_encode_spec};
use vstd::prelude::*;
use vstd::string::*;

verus! {

/// A cached key and its expiry (UNIX seconds).
#[derive(Debug, Clone, Copy, PartialEq, Eq)]
pub struct CachedDek {
    pub bytes: [u8; 32],
    pub expires_unix: u64,
}

/// The session record: at most one cached key per pocket key.
pub struct SessionRecord {
    entries: Vec<(String, CachedDek)>,
}

/// The map the entries `e` denote.
pub open spec fn entries_map(e: Seq<(String, CachedDek)>) -> Map<Seq<char>, (Seq<u8>, u64)>
    decreases e.len(),
{
    if e.len() == 0 {
        Map::empty()
    } else {
        entries_map(e.drop_last()).insert(
            e.last().0@,
            (e.last().1.bytes@, e.last().1.expires_unix),
        )
    }
}

/// No pocket key occurs twice among the entries.
pub open spec fn keys_distinct(e: Seq<(String, CachedDek)>) -> bool {
    forall|i: int, j: int| 0 <= i < j < e.len() ==> (#[trigger] e[i]).0@ != (#[trigger] e[j]).0@
}

proof fn lemma_entries_map_contains(e: Seq<(String, CachedDek)>, k: Seq<char>)
    requires
        keys_distinct(e),
    ensures
        entries_map(e).contains_key(k) <==> exists|i: int| 0 <= i < e.len() && (#[trigger] e[i]).0@ == k,
        forall|i: int|
            0 <= i < e.len() && (#[trigger] e[i]).0@ == k ==> entries_map(e)[k] == (
                e[i].1.bytes@,
                e[i].1.expires_unix,
            ),
    decreases e.len(),
{
    if e.len() > 0 {
        let p = e.drop_last();
        assert(keys_distinct(p)) by {
            assert forall|i: int, j: int| 0 <= i < j < p.len() implies (#[trigger] p[i]).0@ != (
            #[trigger] p[j]).0@ by {
                assert(p[i] == e[i] && p[j] == e[j]);
            }
        }
        lemma_entries_map_contains(p, k);
        if exists|i: int| 0 <= i < e.len() && (#[trigger] e[i]).0@ == k {
            let i = choose|i: int| 0 <= i < e.len() && (#[trigger] e[i]).0@ == k;
            if i < e.len() - 1 {
                assert(p[i] == e[i]);
            }
        }
        assert forall|i: int| 0 <= i < e.len() && (#[trigger] e[i]).0@ == k implies entries_map(
            e,
        )[k] == (e[i].1.bytes@, e[i].1.expires_unix) by {
            if i < e.len() - 1 {
                assert(p[i] == e[i]);
                assert(e[i].0@ != e[e.len() - 1].0@);
            }
        }
    }
}

proof fn lemma_entries_map_finite(e: Seq<(String, CachedDek)>)
    ensures
        entries_map(e).dom().finite(),
        entries_map(e).dom().len() <= e.len(),
    decreases e.len(),
{
    if e.len() > 0 {
        lemma_entries_map_finite(e.drop_last());
    }
}

impl View for SessionRecord {
    type V = Map<Seq<char>, (Seq<u8>, u64)>;

    closed spec fn view(&self) -> Map<Seq<char>, (Seq<u8>, u64)> {
        entries_map(self.entries@)
    }
}

/// The key cached for `key` in `m` if its entry is live at `now`.
pub open spec fn live_entry(m: Map<Seq<char>, (Seq<u8>, u64)>, key: Seq<char>, now: u64) -> Option<Seq<u8>> {
    if m.contains_key(key) && now < m[key].1 {
        Some(m[key].0)
    } else {
        None
    }
}

/// The key bytes of an optional key.
pub open spec fn opt_dek(d: Option<Dek>) -> Option<Seq<u8>> {
    match d {
        Some(k) => Some(k@),
        None => None,
    }
}

/// What the session file should become after an operation.
#[derive(Debug, PartialEq, Eq)]
pub enum SessionAction {
    /// Leave the file as it is.
    Keep,
    /// Write the record to the file.
    Seal,
    /// Delete the file.
    Remove,
}

impl SessionRecord {
    #[verifier::type_invariant]
    closed spec fn wf(self) -> bool {
        keys_distinct(self.entries@)
    }

    /// The empty record (what a missing session file means).
    pub fn new() -> (r: SessionRecord)
        ensures
            r@ == Map::<Seq<char>, (Seq<u8>, u64)>::empty(),
    {
        SessionRecord { entries: Vec::new() }
    }

    fn find(&self, key: &str) -> (r: Option<usize>)
        ensures
            match r {
                Some(i) => i < self.entries@.len() && self.entries@[i as int].0@ == key@,
                None => forall|i: int|
                    0 <= i < self.entries@.len() ==> (#[trigger] self.entries@[i]).0@ != key@,
            },
    {
        let wanted = key.to_owned();
        let mut i: usize = 0;
        while i < self.entries.len()
            invariant
                i <= self.entries@.len(),
                wanted@ == key@,
                forall|j: int| 0 <= j < i ==> (#[trigger] self.entries@[j]).0@ != key@,
            decreases self.entries@.len() - i,
        {
            if self.entries[i].0 == wanted {
                return Some(i);
            }
            i += 1;
        }
        None
    }

    /// The cached entry of a pocket key, live or not.
    pub fn entry(&self, key: &str) -> (r: Option<CachedDek>)
        ensures
            match r {
                Some(c) => self@.contains_key(key@) && self@[key@] == (c.bytes@, c.expires_unix),
                None => !self@.contains_key(key@),
            },
    {
        proof {
            use_type_invariant(self);
            lemma_entries_map_contains(self.entries@, key@);
        }
        match self.find(key) {
            Some(i) => Some(self.entries[i].1),
            None => None,
        }
    }

    /// The key cached for `key`, if its entry is still live at `now`.
    pub fn get(&self, key: &str, now: u64) -> (r: Option<Dek>)
        ensures
            opt_dek(r) == live_entry(self@, key@, now),
            match r {
                Some(d) => self@.contains_key(key@) && now < self@[key@].1 && d@ == self@[key@].0,
                None => !(self@.contains_key(key@) && now < self@[key@].1),
            },
    {
        match self.entry(key) {
            Some(c) => {
                if c.expires_unix <= now {
                    None
                } else {
                    Some(Dek::new(c.bytes))
                }
            },
            None => None,
        }
    }

    /// Caches `dek` for `key` until `now + ttl`, replacing any entry of `key`.
    pub fn insert(&mut self, key: &str, dek: &Dek, ttl: u64, now: u64)
        requires
            now + ttl <= u64::MAX,
        ensures
            final(self)@ == old(self)@.insert(key@, (dek@, (now + ttl) as u64)),
    {
        proof {
            use_type_invariant(&*self);
        }
        let cached = CachedDek { bytes: *dek.expose(), expires_unix: now + ttl };
        self.put(key, cached);
    }

    /// Drops the entry of `key`; tells whether there was one.
    pub fn invalidate(&mut self, key: &str) -> (r: bool)
        ensures
            r == old(self)@.contains_key(key@),
            final(self)@ == old(self)@.remove(key@),
    {
        proof {
            use_type_invariant(&*self);
            lemma_entries_map_contains(self.entries@, key@);
        }
        let ghost old_entries = self.entries@;
        match self.find(key) {
            Some(i) => {
                let mut v: Vec<(String, CachedDek)> = Vec::new();
                std::mem::swap(&mut v, &mut self.entries);
                proof {
                    lemma_remove_entry(old_entries, i as int);
                }
                v.remove(i);
                proof {
                    assert(v@ =~= old_entries.remove(i as int));
                }
                self.entries = v;
                true
            },
            None => {
                assert(entries_map(old_entries).remove(key@) =~= entries_map(old_entries));
                false
            },
        }
    }

    /// Whether no pocket key is cached.
    pub fn is_empty(&self) -> (r: bool)
        ensures
            r == (self@ =~= Map::<Seq<char>, (Seq<u8>, u64)>::empty()),
    {
        proof {
            use_type_invariant(self);
            lemma_entries_map_finite(self.entries@);
            if self.entries@.len() > 0 {
                let e = self.entries@;
                lemma_entries_map_contains(e, e[0].0@);
                assert(entries_map(e).contains_key(e[0].0@));
            }
        }
        self.entries.len() == 0
    }

    /// The entries, for writing the record out.
    pub fn to_entries(&self) -> (r: Vec<(String, CachedDek)>)
        ensures
            entries_map(r@) == self@,
            keys_distinct(r@),
    {
        proof {
            use_type_invariant(self);
        }
        let mut out: Vec<(String, CachedDek)> = Vec::new();
        let mut i: usize = 0;
        while i < self.entries.len()
            invariant
                i <= self.entries@.len(),
                out@.len() == i,
                forall|j: int|
                    0 <= j < i ==> (#[trigger] out@[j]).0@ == self.entries@[j].0@ && out@[j].1
                        == self.entries@[j].1,
            decreases self.entries@.len() - i,
        {
            let k = self.entries[i].0.clone();
            out.push((k, self.entries[i].1));
            i += 1;
        }
        proof {
            lemma_same_keys_same_map(out@, self.entries@);
        }
        out
    }

    /// The record holding the given entries; a later entry of a key replaces
    /// an earlier one.
    pub fn from_entries(entries: Vec<(String, CachedDek)>) -> (r: SessionRecord)
        ensures
            r@ == entries_map(entries@),
    {
        let mut rec = SessionRecord::new();
        let mut i: usize = 0;
        while i < entries.len()
            invariant
                i <= entries@.len(),
                rec@ == entries_map(entries@.take(i as int)),
            decreases entries@.len() - i,
        {
            let (ref k, c) = entries[i];
            proof {
                assert(entries@.take(i + 1).drop_last() =~= entries@.take(i as int));
            }
            rec.put(k.as_str(), c);
            i += 1;
        }
        assert(entries@.take(entries@.len() as int) =~= entries@);
        rec
    }

    fn put(&mut self, key: &str, cached: CachedDek)
        ensures
            final(self)@ == old(self)@.insert(key@, (cached.bytes@, cached.expires_unix)),
    {
        proof {
            use_type_invariant(&*self);
        }
        let ghost old_entries = self.entries@;
        let found = self.find(key);
        let mut v: Vec<(String, CachedDek)> = Vec::new();
        std::mem::swap(&mut v, &mut self.entries);
        assert(v@ == old_entries);
        match found {
            Some(i) => {
                let k = v[i].0.clone();
                proof {
                    lemma_remove_entry(old_entries, i as int);
                }
                v.remove(i);
                proof {
                    assert(v@ =~= old_entries.remove(i as int));
                    lemma_push_entry(v@, (k, cached));
                }
                v.push((k, cached));
                proof {
                    assert(entries_map(v@) =~= entries_map(old_entries).insert(
                        key@,
                        (cached.bytes@, cached.expires_unix),
                    ));
                }
            },
            None => {
                let owned = key.to_owned();
                proof {
                    lemma_push_entry(v@, (owned, cached));
                }
                v.push((owned, cached));
            },
        }
        self.entries = v;
    }
}

proof fn lemma_push_entry(e: Seq<(String, CachedDek)>, x: (String, CachedDek))
    requires
        keys_distinct(e),
        forall|i: int| 0 <= i < e.len() ==> (#[trigger] e[i]).0@ != x.0@,
    ensures
        keys_distinct(e.push(x)),
        entries_map(e.push(x)) == entries_map(e).insert(x.0@, (x.1.bytes@, x.1.expires_unix)),
{
    assert(e.push(x).drop_last() =~= e);
    assert forall|i: int, j: int| 0 <= i < j < e.push(x).len() implies (#[trigger] e.push(x)[i]).0@
        != (#[trigger] e.push(x)[j]).0@ by {
        if j < e.len() {
            assert(e.push(x)[i] == e[i] && e.push(x)[j] == e[j]);
        } else {
            assert(e.push(x)[i] == e[i]);
        }
    }
}

proof fn lemma_remove_entry(e: Seq<(String, CachedDek)>, i: int)
    requires
        keys_distinct(e),
        0 <= i < e.len(),
    ensures
        keys_distinct(e.remove(i)),
        forall|j: int| 0 <= j < e.remove(i).len() ==> (#[trigger] e.remove(i)[j]).0@ != e[i].0@,
        entries_map(e.remove(i)) == entries_map(e).remove(e[i].0@),
    decreases e.len(),
{
    let r = e.remove(i);
    assert forall|a: int, b: int| 0 <= a < b < r.len() implies (#[trigger] r[a]).0@ != (
    #[trigger] r[b]).0@ by {
        let a2 = if a < i {
            a
        } else {
            a + 1
        };
        let b2 = if b < i {
            b
        } else {
            b + 1
        };
        assert(r[a] == e[a2] && r[b] == e[b2]);
    }
    assert forall|j: int| 0 <= j < r.len() implies (#[trigger] r[j]).0@ != e[i].0@ by {
        let j2 = if j < i {
            j
        } else {
            j + 1
        };
        assert(r[j] == e[j2]);
    }
    lemma_entries_map_contains(e, e[i].0@);
    lemma_entries_map_finite(r);
    assert forall|k: Seq<char>| #[trigger] entries_map(r).contains_key(k) <==> entries_map(
        e,
    ).remove(e[i].0@).contains_key(k) by {
        lemma_entries_map_contains(r, k);
        lemma_entries_map_contains(e, k);
        if entries_map(r).contains_key(k) {
            let j = choose|j: int| 0 <= j < r.len() && (#[trigger] r[j]).0@ == k;
            let j2 = if j < i {
                j
            } else {
                j + 1
            };
            assert(r[j] == e[j2]);
        }
        if entries_map(e).remove(e[i].0@).contains_key(k) {
            let j = choose|j: int| 0 <= j < e.len() && (#[trigger] e[j]).0@ == k;
            assert(j != i);
            let j2 = if j < i {
                j
            } else {
                j - 1
            };
            assert(r[j2] == e[j]);
        }
    }
    assert forall|k: Seq<char>| #[trigger] entries_map(r).contains_key(k) implies entries_map(r)[k]
        == entries_map(e)[k] by {
        lemma_entries_map_contains(r, k);
        lemma_entries_map_contains(e, k);
        let j = choose|j: int| 0 <= j < r.len() && (#[trigger] r[j]).0@ == k;
        let j2 = if j < i {
            j
        } else {
            j + 1
        };
        assert(r[j] == e[j2]);
    }
    assert(entries_map(r) =~= entries_map(e).remove(e[i].0@));
}

proof fn lemma_same_keys_same_map(a: Seq<(String, CachedDek)>, b: Seq<(String, CachedDek)>)
    requires
        a.len() == b.len(),
        forall|j: int| 0 <= j < a.len() ==> (#[trigger] a[j]).0@ == b[j].0@ && a[j].1 == b[j].1,
        keys_distinct(b),
    ensures
        entries_map(a) == entries_map(b),
        keys_distinct(a),
    decreases a.len(),
{
    assert forall|i: int, j: int| 0 <= i < j < a.len() implies (#[trigger] a[i]).0@ != (
    #[trigger] a[j]).0@ by {
        assert(a[i].0@ == b[i].0@ && a[j].0@ == b[j].0@);
        assert(b[i].0@ != b[j].0@);
    }
    if a.len() > 0 {
        let pa = a.drop_last();
        let pb = b.drop_last();
        assert(keys_distinct(pb)) by {
            assert forall|i: int, j: int| 0 <= i < j < pb.len() implies (#[trigger] pb[i]).0@ != (
            #[trigger] pb[j]).0@ by {
                assert(pb[i] == b[i] && pb[j] == b[j]);
            }
        }
        assert forall|j: int| 0 <= j < pa.len() implies (#[trigger] pa[j]).0@ == pb[j].0@ && pa[j].1
            == pb[j].1 by {
            assert(pa[j] == a[j] && pb[j] == b[j]);
        }
        lemma_same_keys_same_map(pa, pb);
        assert(a.last().0@ == b.last().0@);
    }
}

/// The text a cached key is written as: lower-case hexadecimal.
pub fn serialize(bytes: &[u8; 32]) -> (r: String)
    ensures
        r@ == hex_encode_spec(bytes@),
{
    hex_encode(bytes)
}

/// The key a cached text holds: hexadecimal text of exactly 32 bytes.
pub fn deserialize(text: &str) -> (r: Result<[u8; 32], MfjError>)
    ensures
        match hex_decode_spec(text.spec_bytes()) {
            None => r == Err::<[u8; 32], MfjError>(MfjError::InvalidHex),
            Some(b) => if b.len() == 32 {
                r matches Ok(a) && a@ == b
            } else {
                r == Err::<[u8; 32], MfjError>(MfjError::DekLength(b.len() as usize))
            },
        },
{
    match hex_decode(text.as_bytes()) {
        Err(_) => Err(MfjError::InvalidHex),
        Ok(v) => {
            if v.len() != 32 {
                Err(MfjError::DekLength(v.len()))
            } else {
                Ok(array32(v.as_slice()))
            }
        },
    }
}

/// The cached key of a pocket, if live at `now`.
pub fn try_resume(record: &SessionRecord, pocket_key: &str, now: u64) -> (r: Option<Dek>)
    ensures
        opt_dek(r) == live_entry(record@, pocket_key@, now),
        match r {
            Some(d) => record@.contains_key(pocket_key@) && now < record@[pocket_key@].1 && d@
                == record@[pocket_key@].0,
            None => !(record@.contains_key(pocket_key@) && now < record@[pocket_key@].1),
        },
{
    record.get(pocket_key, now)
}

/// Caches a pocket's key for the configured time-to-live from `now`; the
/// record must then be sealed.
pub fn establish(record: &mut SessionRecord, pocket_key: &str, dek: &Dek, config: &Config, now: u64)
    requires
        now + config.session_ttl_seconds <= u64::MAX,
    ensures
        final(record)@ == old(record)@.insert(
            pocket_key@,
            (dek@, (now + config.session_ttl_seconds) as u64),
        ),
{
    record.insert(pocket_key, dek, config.session_ttl_seconds, now);
}

/// Forgets a pocket's key: nothing to do if it was not cached; delete the
/// file if no key is left; else rewrite the file.
pub fn invalidate_pocket(record: &mut SessionRecord, pocket_key: &str) -> (r: SessionAction)
    ensures
        final(record)@ == old(record)@.remove(pocket_key@),
        !old(record)@.contains_key(pocket_key@) ==> r == SessionAction::Keep,
        old(record)@.contains_key(pocket_key@) && final(record)@ =~= Map::<
            Seq<char>,
            (Seq<u8>, u64),
        >::empty() ==> r == SessionAction::Remove,
        old(record)@.contains_key(pocket_key@) && !(final(record)@ =~= Map::<
            Seq<char>,
            (Seq<u8>, u64),
        >::empty()) ==> r == SessionAction::Seal,
{
    if !record.invalidate(pocket_key) {
        return SessionAction::Keep;
    }
    if record.is_empty() {
        SessionAction::Remove
    } else {
        SessionAction::Seal
    }
}

/// Forgets every pocket key: the session file is deleted.
pub fn invalidate_all() -> (r: SessionAction)
    ensures
        r == SessionAction::Remove,
{
    SessionAction::Remove
}

/// A key cached at `now` for `ttl` seconds resumes, unchanged, at every
/// time from `now` until just before its expiry, and no longer from then on.
pub proof fn lemma_cached_key_lives_until_expiry(
    m: Map<Seq<char>, (Seq<u8>, u64)>,
    key: Seq<char>,
    dek: Seq<u8>,
    now: u64,
    ttl: u64,
    t: u64,
)
    requires
        now + ttl <= u64::MAX,
    ensures
        t < now + ttl ==> live_entry(m.insert(key, (dek, (now + ttl) as u64)), key, t) == Some(dek),
        t >= now + ttl ==> live_entry(m.insert(key, (dek, (now + ttl) as u64)), key, t) is None,
{
}

/// Caching or forgetting one pocket's key leaves every other pocket's
/// cached key as it was.
pub proof fn lemma_other_keys_unchanged(
    m: Map<Seq<char>, (Seq<u8>, u64)>,
    key: Seq<char>,
    entry: (Seq<u8>, u64),
    other: Seq<char>,
    t: u64,
)
    requires
        other != key,
    ensures
        live_entry(m.insert(key, entry), other, t) == live_entry(m, other, t),
        live_entry(m.remove(key), other, t) == live_entry(m, other, t),
{
}

/// A forgotten pocket key never resumes.
pub proof fn lemma_invalidated_key_gone(m: Map<Seq<char>, (Seq<u8>, u64)>, key: Seq<char>, t: u64)
    ensures
        live_entry(m.remove(key), key, t) is None,
{
}

} // verus!
