//! The configuration model and its evaluation: a version requirement, a
//! cache policy, global overrides, and named profiles; evaluating a profile
//! name resolves the project, the cache allowance and the merged overrides,
//! and fails exactly where the profile is absent.

use vstd::prelude::*;
use crate::error::ConfigError;
use crate::secrets::{
    Secrets, GlobalOverrides, keys_unique, pairs_to_map, merged, lemma_pairs_to_map_props,
    lemma_keys_unique_remove_push, str_eq,
};
use crate::version::VersionReq;

verus! {

/// Maximum age of the cached secrets, in seconds.
pub struct CacheMaxAge(pub u64);

impl CacheMaxAge {
    pub fn as_u64(&self) -> (r: &u64)
        ensures
            *r == self.0,
    {
        &self.0
    }
}

impl Default for CacheMaxAge {
    /// One day, where the configuration names no allowance.
    fn default() -> (r: Self)
        ensures
            r.0 == 86400,
    {
        CacheMaxAge(86400)
    }
}

/// The cache directory, relative to the project root.
pub struct CachePath(pub String);

impl CachePath {
    pub fn as_pathbuf(&self) -> (r: &String)
        ensures
            r@ == self.0@,
    {
        &self.0
    }
}

impl Default for CachePath {
    fn default() -> (r: Self)
        ensures
            r.0@ == ".cache"@,
    {
        CachePath(".cache".to_owned())
    }
}

/// The cache section of the configuration.
pub struct Cache {
    pub path: CachePath,
    pub max_age: CacheMaxAge,
}

impl Default for Cache {
    fn default() -> (r: Self)
        ensures
            r.path.0@ == ".cache"@,
            r.max_age.0 == 86400,
    {
        Cache { path: CachePath(".cache".to_owned()), max_age: CacheMaxAge(86400) }
    }
}

/// The global section: overrides applied to every profile.
pub struct Global {
    pub overrides: GlobalOverrides,
}

impl Default for Global {
    fn default() -> (r: Self)
        ensures
            r.overrides.0.wf(),
            r.overrides.0@.len() == 0,
    {
        Global { overrides: GlobalOverrides(Secrets::new()) }
    }
}

/// One profile: the project it selects and its own overrides.
pub struct Profile {
    pub project_id: String,
    pub overrides: Secrets,
}

impl View for Profile {
    type V = (Seq<char>, Seq<(Seq<char>, Seq<char>)>);

    open spec fn view(&self) -> (Seq<char>, Seq<(Seq<char>, Seq<char>)>) {
        (self.project_id@, self.overrides@)
    }
}

/// The named profiles, each name unique.
pub struct Profiles {
    entries: Vec<(String, Profile)>,
}

impl View for Profiles {
    type V = Seq<(Seq<char>, (Seq<char>, Seq<(Seq<char>, Seq<char>)>))>;

    closed spec fn view(&self) -> Seq<(Seq<char>, (Seq<char>, Seq<(Seq<char>, Seq<char>)>))> {
        Seq::new(self.entries@.len(), |i: int| (self.entries@[i].0@, self.entries@[i].1@))
    }
}

impl Profiles {
    /// The map from profile name to profile.
    pub open spec fn as_map(self) -> Map<Seq<char>, (Seq<char>, Seq<(Seq<char>, Seq<char>)>)> {
        pairs_to_map(self@)
    }

    /// Well-formedness: names unique, and every profile's overrides sound.
    pub open spec fn wf(self) -> bool {
        keys_unique(self@) && forall|i: int| 0 <= i < self@.len()
            ==> keys_unique((#[trigger] self@[i]).1.1)
    }

    /// Wraps a list of named profiles; on a repeated name the later entry
    /// wins, as in the map the list describes.
    pub fn new(entries: Vec<(String, Profile)>) -> (r: Profiles)
        requires
            forall|i: int| 0 <= i < entries@.len()
                ==> keys_unique((#[trigger] entries@[i]).1@.1),
        ensures
            r.wf(),
            r.as_map() == pairs_to_map(
                Seq::new(entries@.len(), |i: int| (entries@[i].0@, entries@[i].1@)),
            ),
    {
        let ghost vv = Seq::new(entries@.len(), |i: int| (entries@[i].0@, entries@[i].1@));
        let mut rest = entries;
        let mut r = Profiles { entries: Vec::new() };
        let ghost n: int = vv.len() as int;
        proof {
            assert(r@ =~= Seq::<(Seq<char>, (Seq<char>, Seq<(Seq<char>, Seq<char>)>))>::empty());
            assert(vv.take(0) =~= Seq::<(Seq<char>, (Seq<char>, Seq<(Seq<char>, Seq<char>)>))>::empty());
        }
        let ghost mut i: int = 0;
        while rest.len() > 0
            invariant
                0 <= i <= n,
                n == vv.len(),
                rest@.len() == n - i,
                forall|k: int| 0 <= k < rest@.len()
                    ==> (#[trigger] rest@[k]).0@ == vv[i + k].0
                        && rest@[k].1@ == vv[i + k].1,
                forall|k: int| 0 <= k < rest@.len()
                    ==> keys_unique((#[trigger] rest@[k]).1@.1),
                r.wf(),
                r.as_map() == pairs_to_map(vv.take(i)),
            decreases rest@.len(),
        {
            let ghost pre = rest@;
            let (name, profile) = rest.remove(0);
            proof {
                assert(name == pre[0].0 && profile == pre[0].1);
                assert(keys_unique(profile@.1));
                assert(name@ == vv[i].0 && profile@ == vv[i].1);
                assert(forall|k: int| 0 <= k < rest@.len()
                    ==> #[trigger] rest@[k] == pre[k + 1]);
            }
            r.insert_profile(name, profile);
            proof {
                assert(vv.take(i + 1).drop_last() =~= vv.take(i));
                i = i + 1;
            }
        }
        proof {
            assert(vv.take(n) =~= vv);
        }
        r
    }

    /// Stores `profile` under `name`, replacing any earlier one.
    fn insert_profile(&mut self, name: String, profile: Profile)
        requires
            old(self).wf(),
            keys_unique(profile@.1),
        ensures
            final(self).wf(),
            final(self).as_map() == old(self).as_map().insert(name@, profile@),
    {
        let ghost s0 = self@;
        let ghost nm = name@;
        let ghost pv = profile@;
        let n = self.entries.len();
        let mut i: usize = 0;
        while i < n
            invariant
                n == s0.len(),
                i <= n,
                self@ == s0,
                s0 == old(self)@,
                keys_unique(s0),
                forall|k: int| 0 <= k < s0.len() ==> keys_unique((#[trigger] s0[k]).1.1),
                keys_unique(pv.1),
                nm == name@,
                pv == profile@,
                forall|j: int| 0 <= j < i ==> (#[trigger] s0[j]).0 != nm,
            decreases n - i,
        {
            if str_eq(self.entries[i].0.as_str(), name.as_str()) {
                self.entries.remove(i);
                proof {
                    assert(self@ =~= s0.remove(i as int));
                }
                self.entries.push((name, profile));
                proof {
                    assert(self@ =~= s0.remove(i as int).push((nm, pv)));
                    lemma_keys_unique_remove_push(s0, i as int, nm, pv);
                    assert forall|k: int| 0 <= k < self@.len()
                        implies keys_unique((#[trigger] self@[k]).1.1) by {
                        if k < self@.len() - 1 {
                            let k2: int = if k < i { k } else { k + 1 };
                            assert(self@[k] == s0.remove(i as int)[k]);
                            assert(s0.remove(i as int)[k] == s0[k2]);
                        }
                    }
                }
                return;
            }
            i += 1;
        }
        self.entries.push((name, profile));
        proof {
            assert(self@.drop_last() =~= s0);
            assert(forall|j: int| 0 <= j < s0.len() ==> (#[trigger] self@[j]) == s0[j]);
            assert(keys_unique(self@));
            assert forall|k: int| 0 <= k < self@.len()
                implies keys_unique((#[trigger] self@[k]).1.1) by {
                if k < self@.len() - 1 {
                    assert(self@[k] == s0[k]);
                }
            }
        }
    }

    /// The profile stored under `key`; its absence is the `NoProfile`
    /// failure.
    pub fn get(&self, key: &str) -> (r: Result<&Profile, ConfigError>)
        requires
            self.wf(),
        ensures
            match r {
                Ok(p) => self.as_map().contains_key(key@) && self.as_map()[key@] == p@
                    && keys_unique(p@.1),
                Err(e) => !self.as_map().contains_key(key@) && e == ConfigError::NoProfile,
            },
    {
        let n = self.entries.len();
        let mut i: usize = 0;
        while i < n
            invariant
                n == self@.len(),
                i <= n,
                self.wf(),
                forall|j: int| 0 <= j < i ==> (#[trigger] self@[j]).0 != key@,
            decreases n - i,
        {
            if str_eq(self.entries[i].0.as_str(), key) {
                proof {
                    lemma_pairs_to_map_props(self@);
                    assert(self@[i as int].0 == key@);
                    assert(self.as_map().contains_key(key@));
                    assert(self.as_map()[key@] == self@[i as int].1);
                }
                return Ok(&self.entries[i].1);
            }
            i += 1;
        }
        proof {
            lemma_pairs_to_map_props(self@);
        }
        Err(ConfigError::NoProfile)
    }
}

/// The whole configuration file, as the model the evaluator works on.
pub struct Config {
    pub version: VersionReq,
    pub cache: Cache,
    pub global: Global,
    pub profiles: Profiles,
    pub path: String,
}

/// The resolved view for one profile: what the rest of the run needs.
pub struct ConfigEvaluation {
    pub version_req: VersionReq,
    pub profile_name: String,
    pub project_id: String,
    pub max_age: CacheMaxAge,
    pub overrides: Secrets,
}

impl Config {
    /// Well-formedness of the model as a whole.
    pub open spec fn wf(self) -> bool {
        self.profiles.wf() && self.global.overrides.0.wf()
    }

    /// Resolves `profile_name`: the project, the allowance, the requirement
    /// and the profile's overrides merged over the global ones, profile
    /// entries winning. Fails exactly where the profile is absent, with
    /// `NoProfile`; no side effects.
    pub fn evaluate(&self, profile_name: &str) -> (r: Result<ConfigEvaluation, ConfigError>)
        requires
            self.wf(),
        ensures
            match r {
                Ok(ev) => self.profiles.as_map().contains_key(profile_name@)
                    && ev.profile_name@ == profile_name@
                    && ev.project_id@ == self.profiles.as_map()[profile_name@].0
                    && ev.version_req@ == self.version@
                    && ev.max_age.0 == self.cache.max_age.0
                    && ev.overrides.wf()
                    && ev.overrides.as_map() == merged(
                        self.global.overrides.0.as_map(),
                        pairs_to_map(self.profiles.as_map()[profile_name@].1),
                    ),
                Err(e) => !self.profiles.as_map().contains_key(profile_name@)
                    && e == ConfigError::NoProfile,
            },
    {
        let profile = match self.profiles.get(profile_name) {
            Ok(p) => p,
            Err(e) => {
                return Err(e);
            },
        };
        let overrides = Secrets::merge(&self.global.overrides.0, &profile.overrides);
        Ok(
            ConfigEvaluation {
                profile_name: profile_name.to_owned(),
                overrides,
                project_id: profile.project_id.clone(),
                version_req: self.version.clone(),
                max_age: CacheMaxAge(self.cache.max_age.0),
            },
        )
    }
}

} // verus!
