//! The per-profile secret cache: a map from profile name to stored entry
//! bytes, the staleness decision, and the read-or-revalidate step. Reading
//! degrades any malformed entry to a miss; writing stamps the entry with
//! the clock and the tool's version.

use vstd::prelude::*;
use vstd::string::StringExecFns;
use crate::codec::{
    spec_encode_entry, spec_decode_entry, encode_entry, decode_entry, pairs_len_ok,
    lemma_entry_round_trip, lemma_decode_entry_wf,
};
use crate::secrets::{
    Secrets, keys_unique, pairs_to_map, lemma_pairs_to_map_props, lemma_pairs_to_map_remove,
    lemma_keys_unique_remove_push, str_eq,
};
use crate::time::{spec_is_older, is_older_at, now_millis};
use crate::version::Version;

verus! {

/// One cached entry: when it was last revalidated (milliseconds since the
/// epoch), the variables, and the tool version that wrote it.
pub struct CacheEntry {
    pub last_revalidation: u64,
    pub variables: Secrets,
    pub version: Version,
}

/// The cache: one stored byte string per profile name, under a directory.
pub struct Cache {
    pub directory: String,
    version: Version,
    files: Vec<(String, Vec<u8>)>,
}

impl View for Cache {
    type V = Map<Seq<char>, Seq<u8>>;

    closed spec fn view(&self) -> Map<Seq<char>, Seq<u8>> {
        pairs_to_map(self.files_seq())
    }
}

/// What a profile's stored bytes say, if they are present and well formed.
pub open spec fn spec_lookup(m: Map<Seq<char>, Seq<u8>>, profile: Seq<char>) -> Option<
    (u64, Version, Seq<(Seq<char>, Seq<char>)>),
> {
    if m.contains_key(profile) {
        spec_decode_entry(m[profile])
    } else {
        Option::None
    }
}

/// The sole staleness predicate: no entry, a tool-version mismatch, or an
/// age beyond `max_age` whole seconds.
pub open spec fn spec_stale(
    m: Map<Seq<char>, Seq<u8>>,
    tool: Version,
    profile: Seq<char>,
    max_age: u64,
    now_millis: u64,
) -> bool {
    match spec_lookup(m, profile) {
        Option::None => true,
        Option::Some(t) => t.1 != tool || spec_is_older(t.0, max_age, now_millis / 1000),
    }
}

/// What `get_or_revalidate` leaves behind and hands back, given the clock
/// reading it ran under: a stale entry is replaced by what the revalidate
/// call produced, and a fresh one is returned untouched.
pub open spec fn revalidate_post<F: FnOnce() -> Secrets>(
    old_m: Map<Seq<char>, Seq<u8>>,
    new_m: Map<Seq<char>, Seq<u8>>,
    tool: Version,
    profile: Seq<char>,
    max_age: u64,
    now_millis: u64,
    revalidate: F,
    r: Option<CacheEntry>,
) -> bool {
    if spec_stale(old_m, tool, profile, max_age, now_millis) {
        exists|s: Secrets|
            call_ensures(revalidate, (), s) && new_m == old_m.insert(
                profile,
                spec_encode_entry(now_millis, tool, s@),
            ) && (match r {
                Option::Some(e) => e.last_revalidation == now_millis && e.version == tool
                    && e.variables@ == s@ && e.variables.wf(),
                Option::None => false,
            })
    } else {
        new_m == old_m && (match r {
            Option::Some(e) => e.variables.wf() && spec_lookup(old_m, profile)
                == Option::Some((e.last_revalidation, e.version, e.variables@)),
            Option::None => spec_lookup(old_m, profile) is None,
        })
    }
}

impl Cache {
    /// The stored files as a sequence of (profile, bytes) pairs.
    pub closed spec fn files_seq(&self) -> Seq<(Seq<char>, Seq<u8>)> {
        Seq::new(self.files@.len(), |i: int| (self.files@[i].0@, self.files@[i].1@))
    }

    /// Well-formedness: no profile name occurs twice.
    pub open spec fn wf(self) -> bool {
        keys_unique(self.files_seq())
    }

    /// The tool version the cache stamps entries with.
    pub closed spec fn spec_version(self) -> Version {
        self.version
    }

    /// The directory the entries are kept under.
    pub closed spec fn spec_directory(self) -> Seq<char> {
        self.directory@
    }

    /// An empty cache under `directory`, in that directory's own
    /// `bwenv` subdirectory.
    pub fn new(directory: String, version: &Version) -> (r: Cache)
        ensures
            r.wf(),
            r.spec_directory() == directory@ + "/bwenv"@,
            r.spec_version() == *version,
            r@ == Map::<Seq<char>, Seq<u8>>::empty(),
    {
        let r = Cache { directory: directory.concat("/bwenv"), version: *version, files: Vec::new() };
        proof {
            assert(r.files_seq() =~= Seq::<(Seq<char>, Seq<u8>)>::empty());
        }
        r
    }

    /// The version the entries are compared against.
    pub fn version(&self) -> (r: &Version)
        ensures
            *r == self.spec_version(),
    {
        &self.version
    }

    /// The position of `profile` among the stored files, if it is there.
    fn find_file(&self, profile: &str) -> (r: Option<usize>)
        ensures
            match r {
                Some(i) => i < self.files_seq().len() && self.files_seq()[i as int].0 == profile@,
                None => forall|i: int| 0 <= i < self.files_seq().len()
                    ==> (#[trigger] self.files_seq()[i]).0 != profile@,
            },
    {
        let n = self.files.len();
        let mut i: usize = 0;
        while i < n
            invariant
                n == self.files_seq().len(),
                i <= n,
                forall|j: int| 0 <= j < i ==> (#[trigger] self.files_seq()[j]).0 != profile@,
            decreases n - i,
        {
            if str_eq(self.files[i].0.as_str(), profile) {
                return Some(i);
            }
            i += 1;
        }
        None
    }

    /// Stores `bytes` under `profile`, replacing any earlier entry.
    fn set_file(&mut self, profile: &str, bytes: Vec<u8>)
        requires
            old(self).wf(),
        ensures
            final(self).wf(),
            final(self)@ == old(self)@.insert(profile@, bytes@),
            final(self).spec_directory() == old(self).spec_directory(),
            final(self).spec_version() == old(self).spec_version(),
    {
        let ghost s0 = self.files_seq();
        match self.find_file(profile) {
            Some(i) => {
                self.files.remove(i);
                proof {
                    assert(self.files_seq() =~= s0.remove(i as int));
                }
                self.files.push((profile.to_owned(), bytes));
                proof {
                    assert(self.files_seq() =~= s0.remove(i as int).push((profile@, bytes@)));
                    lemma_keys_unique_remove_push(s0, i as int, profile@, bytes@);
                }
            },
            None => {
                self.files.push((profile.to_owned(), bytes));
                proof {
                    assert(self.files_seq().drop_last() =~= s0);
                    assert(forall|j: int|
                        0 <= j < s0.len() ==> (#[trigger] self.files_seq()[j]) == s0[j]);
                    assert(keys_unique(self.files_seq()));
                }
            },
        }
    }

    /// Installs a profile's stored bytes, as read back from persistence;
    /// what they hold is judged only when the entry is read.
    pub fn load_file(&mut self, profile: &str, bytes: Vec<u8>)
        requires
            old(self).wf(),
        ensures
            final(self).wf(),
            final(self)@ == old(self)@.insert(profile@, bytes@),
            final(self).spec_directory() == old(self).spec_directory(),
            final(self).spec_version() == old(self).spec_version(),
    {
        self.set_file(profile, bytes);
    }

    /// The stored files, profile name and bytes each, for persistence.
    pub fn dump_files(&self) -> (r: Vec<(String, Vec<u8>)>)
        ensures
            r@.len() == self.files_seq().len(),
            forall|i: int| 0 <= i < r@.len() ==> (#[trigger] r@[i]).0@ == self.files_seq()[i].0
                && r@[i].1@ == self.files_seq()[i].1,
    {
        let n = self.files.len();
        let mut r: Vec<(String, Vec<u8>)> = Vec::new();
        let mut i: usize = 0;
        while i < n
            invariant
                n == self.files_seq().len(),
                i <= n,
                r@.len() == i,
                forall|k: int| 0 <= k < i ==> (#[trigger] r@[k]).0@ == self.files_seq()[k].0
                    && r@[k].1@ == self.files_seq()[k].1,
            decreases n - i,
        {
            let p = &self.files[i];
            r.push((p.0.clone(), p.1.clone()));
            i += 1;
        }
        r
    }

    /// Reads the entry stored for `profile`; a missing or malformed entry
    /// is a miss, never an error.
    pub fn get(&self, profile: &str) -> (r: Option<CacheEntry>)
        requires
            self.wf(),
        ensures
            match r {
                Some(e) => e.variables.wf() && spec_lookup(self@, profile@)
                    == Option::Some((e.last_revalidation, e.version, e.variables@)),
                None => spec_lookup(self@, profile@) is None,
            },
    {
        proof {
            lemma_pairs_to_map_props(self.files_seq());
        }
        match self.find_file(profile) {
            Some(i) => match decode_entry(self.files[i].1.as_slice()) {
                Some(t) => Some(
                    CacheEntry { last_revalidation: t.0, version: t.1, variables: t.2 },
                ),
                None => None,
            },
            None => None,
        }
    }

    /// Writes a fresh entry for `profile`, stamped with the given clock
    /// reading and the cache's tool version.
    pub fn set_at(&mut self, profile: &str, variables: Secrets, now_millis: u64)
        requires
            old(self).wf(),
        ensures
            final(self).wf(),
            final(self)@ == old(self)@.insert(
                profile@,
                spec_encode_entry(now_millis, old(self).spec_version(), variables@),
            ),
            final(self).spec_directory() == old(self).spec_directory(),
            final(self).spec_version() == old(self).spec_version(),
            pairs_len_ok(variables@),
            variables@.len() <= u64::MAX,
    {
        let bytes = encode_entry(now_millis, &self.version, &variables);
        self.set_file(profile, bytes);
    }

    /// Writes a fresh entry for `profile`, stamped with the clock's present
    /// reading; `set_at` is the same step against a given reading.
    pub fn set(&mut self, profile: &str, variables: Secrets)
        requires
            old(self).wf(),
        ensures
            final(self).wf(),
            exists|t: u64|
                final(self)@ == old(self)@.insert(
                    profile@,
                    spec_encode_entry(t, old(self).spec_version(), variables@),
                ),
            final(self).spec_directory() == old(self).spec_directory(),
            final(self).spec_version() == old(self).spec_version(),
    {
        let t = now_millis();
        self.set_at(profile, variables, t);
    }

    /// Deletes the entry for `profile`; not an error if none was there.
    pub fn clear(&mut self, profile: &str)
        requires
            old(self).wf(),
        ensures
            final(self).wf(),
            final(self)@ == old(self)@.remove(profile@),
            final(self).spec_directory() == old(self).spec_directory(),
            final(self).spec_version() == old(self).spec_version(),
    {
        let ghost s0 = self.files_seq();
        proof {
            lemma_pairs_to_map_props(s0);
        }
        match self.find_file(profile) {
            Some(i) => {
                self.files.remove(i);
                proof {
                    assert(self.files_seq() =~= s0.remove(i as int));
                    lemma_pairs_to_map_remove(s0, i as int);
                }
            },
            None => {
                proof {
                    assert(self@ =~= old(self)@.remove(profile@));
                }
            },
        }
    }

    /// Rewrites the entry for `profile` with its revalidation time zeroed
    /// and its variables kept, so the next staleness check sees it stale
    /// while the values stay readable; absent entries are left alone.
    pub fn invalidate(&mut self, profile: &str)
        requires
            old(self).wf(),
        ensures
            final(self).wf(),
            final(self).spec_directory() == old(self).spec_directory(),
            final(self).spec_version() == old(self).spec_version(),
            match spec_lookup(old(self)@, profile@) {
                Option::Some(t) => final(self)@ == old(self)@.insert(
                    profile@,
                    spec_encode_entry(0, old(self).spec_version(), t.2),
                ),
                Option::None => final(self)@ == old(self)@,
            },
    {
        match self.get(profile) {
            Some(e) => {
                self.set_at(profile, e.variables, 0);
            },
            None => {},
        }
    }

    /// The staleness decision against a given clock reading.
    pub fn is_stale_at(&self, profile: &str, max_age: u64, now_millis: u64) -> (r: bool)
        requires
            self.wf(),
        ensures
            r == spec_stale(self@, self.spec_version(), profile@, max_age, now_millis),
    {
        match self.get(profile) {
            None => true,
            Some(e) => {
                is_older_at(e.last_revalidation, max_age, now_millis / 1000)
                    || self.version != e.version
            },
        }
    }

    /// The staleness decision by the wall clock; `is_stale_at` is the same
    /// decision against a given reading.
    pub fn is_stale(&self, profile: &str, seconds: &u64) -> (r: bool)
        requires
            self.wf(),
        ensures
            exists|now: u64|
                r == spec_stale(self@, self.spec_version(), profile@, *seconds, now),
    {
        let now = now_millis();
        self.is_stale_at(profile, *seconds, now)
    }

    /// Reads the entry for `profile` if it is fresh; a stale one is
    /// replaced by what `revalidate` produces, written at the given clock
    /// reading, and read back. `revalidate` runs at most once.
    pub fn get_or_revalidate_at<F: FnOnce() -> Secrets>(
        &mut self,
        profile: &str,
        max_age: u64,
        now_millis: u64,
        revalidate: F,
    ) -> (r: Option<CacheEntry>)
        requires
            old(self).wf(),
            call_requires(revalidate, ()),
            forall|s: Secrets| call_ensures(revalidate, (), s) ==> s.wf(),
        ensures
            final(self).wf(),
            final(self).spec_directory() == old(self).spec_directory(),
            final(self).spec_version() == old(self).spec_version(),
            revalidate_post(
                old(self)@,
                final(self)@,
                old(self).spec_version(),
                profile@,
                max_age,
                now_millis,
                revalidate,
                r,
            ),
    {
        if self.is_stale_at(profile, max_age, now_millis) {
            let s = revalidate();
            let ghost sv = s@;
            proof {
                assert(call_ensures(revalidate, (), s));
                assert(s.wf());
            }
            self.set_at(profile, s, now_millis);
            let r = self.get(profile);
            proof {
                lemma_entry_round_trip(now_millis, old(self).spec_version(), sv);
            }
            r
        } else {
            self.get(profile)
        }
    }

    /// Reads or revalidates by the wall clock; `get_or_revalidate_at` is
    /// the same step against a given reading.
    pub fn get_or_revalidate<F: FnOnce() -> Secrets>(
        &mut self,
        profile: &str,
        max_age: &u64,
        revalidate: F,
    ) -> (r: Option<CacheEntry>)
        requires
            old(self).wf(),
            call_requires(revalidate, ()),
            forall|s: Secrets| call_ensures(revalidate, (), s) ==> s.wf(),
        ensures
            final(self).wf(),
            final(self).spec_directory() == old(self).spec_directory(),
            final(self).spec_version() == old(self).spec_version(),
            exists|now: u64|
                revalidate_post(
                    old(self)@,
                    final(self)@,
                    old(self).spec_version(),
                    profile@,
                    *max_age,
                    now,
                    revalidate,
                    r,
                ),
    {
        let now = now_millis();
        let r = self.get_or_revalidate_at(profile, *max_age, now, revalidate);
        r
    }
}

/// An entry written by the cache's own tool version is stale exactly when
/// its age exceeds the allowance; an age equal to the allowance is not
/// stale.
pub proof fn lemma_stale_iff_age(
    m: Map<Seq<char>, Seq<u8>>,
    tool: Version,
    profile: Seq<char>,
    max_age: u64,
    now_millis: u64,
)
    requires
        spec_lookup(m, profile) is Some,
        (spec_lookup(m, profile)->0).1 == tool,
    ensures
        spec_stale(m, tool, profile, max_age, now_millis)
            <==> now_millis / 1000 - (spec_lookup(m, profile)->0).0 / 1000 > max_age,
{
}

/// A tool-version mismatch forces staleness, whatever the entry's age.
pub proof fn lemma_version_mismatch_stale(
    m: Map<Seq<char>, Seq<u8>>,
    tool: Version,
    profile: Seq<char>,
    max_age: u64,
    now_millis: u64,
)
    requires
        spec_lookup(m, profile) is Some,
        (spec_lookup(m, profile)->0).1 != tool,
    ensures
        spec_stale(m, tool, profile, max_age, now_millis),
{
}

/// What an invalidation writes over a stored entry is stale for every
/// allowance below the clock's reading in seconds.
pub proof fn lemma_invalidate_then_stale(
    m: Map<Seq<char>, Seq<u8>>,
    tool: Version,
    profile: Seq<char>,
    max_age: u64,
    now_millis: u64,
)
    requires
        spec_lookup(m, profile) is Some,
        max_age < now_millis / 1000,
    ensures
        spec_stale(
            m.insert(
                profile,
                spec_encode_entry(0, tool, (spec_lookup(m, profile)->0).2),
            ),
            tool,
            profile,
            max_age,
            now_millis,
        ),
{
    lemma_decode_entry_wf(m[profile]);
    lemma_entry_round_trip(0, tool, (spec_lookup(m, profile)->0).2);
}

/// After a clear, nothing is found for the profile.
pub proof fn lemma_clear_then_get(m: Map<Seq<char>, Seq<u8>>, profile: Seq<char>)
    ensures
        spec_lookup(m.remove(profile), profile) is None,
{
}

/// What was set is found again, to the letter.
pub proof fn lemma_set_then_get(
    m: Map<Seq<char>, Seq<u8>>,
    tool: Version,
    profile: Seq<char>,
    vars: Seq<(Seq<char>, Seq<char>)>,
    t: u64,
)
    requires
        keys_unique(vars),
        pairs_len_ok(vars),
        vars.len() <= u64::MAX,
    ensures
        spec_lookup(m.insert(profile, spec_encode_entry(t, tool, vars)), profile)
            == Option::Some((t, tool, vars)),
{
    lemma_entry_round_trip(t, tool, vars);
}

} // verus!
