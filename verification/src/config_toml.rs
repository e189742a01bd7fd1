//! The older configuration format: a flat project and override set beside
//! a profile table. Reading it plants the top-level fields as the "default"
//! profile and converts the whole into the current model.

use vstd::prelude::*;
use vstd::string::StrSliceExecFns;
use crate::config_yaml;
use crate::secrets::{
    Secrets, GlobalOverrides, keys_unique, pairs_to_map, lemma_pairs_to_map_props,
    lemma_keys_unique_remove_push, str_eq,
};
use crate::version::VersionReq;

verus! {

/// One profile of the older format.
pub struct Profile {
    pub project: Option<String>,
    pub environment: Option<String>,
    pub overrides: Secrets,
}

impl View for Profile {
    type V = (Option<Seq<char>>, Seq<(Seq<char>, Seq<char>)>);

    open spec fn view(&self) -> (Option<Seq<char>>, Seq<(Seq<char>, Seq<char>)>) {
        (
            match self.project {
                Option::Some(ref p) => Option::Some(p@),
                Option::None => Option::None,
            },
            self.overrides@,
        )
    }
}

/// The cache section of the older format.
pub struct Cache {
    pub max_age: config_yaml::CacheMaxAge,
    pub path: config_yaml::CachePath,
}

/// The whole older-format file.
pub struct Config {
    pub version: VersionReq,
    pub environment: Option<Vec<String>>,
    pub cache: Cache,
    pub project: Option<String>,
    pub overrides: Secrets,
    pub profile: Vec<(String, Profile)>,
    pub path: String,
}

/// Carries a profile of the older format into the current model; the
/// project must be named.
pub fn convert_toml_profile_to_yaml_profile(toml_profile: Profile) -> (r: config_yaml::Profile)
    requires
        toml_profile@.0 is Some,
    ensures
        r@ == (toml_profile@.0->0, toml_profile@.1),
{
    let project_id = match toml_profile.project {
        Some(p) => p,
        None => String::new(),
    };
    config_yaml::Profile { project_id, overrides: toml_profile.overrides }
}

/// Whether the path carries the `.toml` extension the older format asks
/// for.
pub fn is_toml_path(path: &str) -> (r: bool)
    ensures
        r == (path@.len() >= 5 && path@.subrange(
            path@.len() - 5,
            path@.len() as int,
        ) == ".toml"@),
{
    let n = path.unicode_len();
    if n < 5 {
        return false;
    }
    let suffix = path.substring_char(n - 5, n);
    str_eq(suffix, ".toml")
}

impl Config {
    /// The profile table as a sequence of (name, profile) pairs.
    pub open spec fn profiles_seq(self) -> Seq<
        (Seq<char>, (Option<Seq<char>>, Seq<(Seq<char>, Seq<char>)>)),
    > {
        Seq::new(self.profile@.len(), |i: int| (self.profile@[i].0@, self.profile@[i].1@))
    }

    /// The profile table as a map.
    pub open spec fn profiles_map(self) -> Map<
        Seq<char>,
        (Option<Seq<char>>, Seq<(Seq<char>, Seq<char>)>),
    > {
        pairs_to_map(self.profiles_seq())
    }

    /// The top-level project, as the optional text it names.
    pub open spec fn spec_project(self) -> Option<Seq<char>> {
        match self.project {
            Option::Some(p) => Option::Some(p@),
            Option::None => Option::None,
        }
    }

    /// Well-formedness of the model.
    pub open spec fn wf(self) -> bool {
        self.overrides.wf() && keys_unique(self.profiles_seq())
            && forall|i: int| 0 <= i < self.profiles_seq().len()
                ==> keys_unique((#[trigger] self.profiles_seq()[i]).1.1)
    }

    /// Plants the top-level project and overrides as the "default"
    /// profile, replacing any profile of that name, as reading the older
    /// format does.
    pub fn add_default_profile(&mut self)
        requires
            old(self).wf(),
        ensures
            final(self).wf(),
            final(self).profiles_map() == old(self).profiles_map().insert(
                "default"@,
                (old(self).spec_project(), old(self).overrides@),
            ),
            final(self).version == old(self).version,
            final(self).cache == old(self).cache,
            final(self).project == old(self).project,
            final(self).overrides == old(self).overrides,
            final(self).environment == old(self).environment,
            final(self).path == old(self).path,
    {
        let new_profile = Profile {
            project: clone_opt_string(&self.project),
            environment: None,
            overrides: self.overrides.duplicate(),
        };
        let ghost pv = new_profile@;
        proof {
            assert(pv == (old(self).spec_project(), old(self).overrides@));
        }
        let name: String = "default".to_owned();
        let ghost s0 = self.profiles_seq();
        let n = self.profile.len();
        let mut i: usize = 0;
        while i < n
            invariant
                n == s0.len(),
                i <= n,
                self.profiles_seq() == s0,
                s0 == old(self).profiles_seq(),
                keys_unique(s0),
                forall|k: int| 0 <= k < s0.len() ==> keys_unique((#[trigger] s0[k]).1.1),
                keys_unique(pv.1),
                pv == new_profile@,
                pv == (old(self).spec_project(), old(self).overrides@),
                old(self).wf(),
                name@ == "default"@,
                self.version == old(self).version,
                self.cache == old(self).cache,
                self.project == old(self).project,
                self.overrides == old(self).overrides,
                self.environment == old(self).environment,
                self.path == old(self).path,
                forall|j: int| 0 <= j < i ==> (#[trigger] s0[j]).0 != name@,
            decreases n - i,
        {
            if str_eq(self.profile[i].0.as_str(), name.as_str()) {
                self.profile.remove(i);
                proof {
                    assert(self.profiles_seq() =~= s0.remove(i as int));
                }
                self.profile.push((name, new_profile));
                proof {
                    assert(self.profiles_seq() =~= s0.remove(i as int).push(("default"@, pv)));
                    lemma_keys_unique_remove_push(s0, i as int, "default"@, pv);
                    assert forall|k: int| 0 <= k < self.profiles_seq().len()
                        implies keys_unique((#[trigger] self.profiles_seq()[k]).1.1) by {
                        if k < self.profiles_seq().len() - 1 {
                            let k2: int = if k < i { k } else { k + 1 };
                            assert(self.profiles_seq()[k] == s0.remove(i as int)[k]);
                            assert(s0.remove(i as int)[k] == s0[k2]);
                        }
                    }
                }
                return;
            }
            i += 1;
        }
        self.profile.push((name, new_profile));
        proof {
            assert(self.profiles_seq().drop_last() =~= s0);
            assert(forall|j: int|
                0 <= j < s0.len() ==> (#[trigger] self.profiles_seq()[j]) == s0[j]);
            assert(keys_unique(self.profiles_seq()));
            assert forall|k: int| 0 <= k < self.profiles_seq().len()
                implies keys_unique((#[trigger] self.profiles_seq()[k]).1.1) by {
                if k < self.profiles_seq().len() - 1 {
                    assert(self.profiles_seq()[k] == s0[k]);
                }
            }
        }
    }

    /// The model in the current format: the top-level overrides become the
    /// global ones, and every profile is carried over, project made
    /// mandatory.
    pub fn as_yaml_config(&self) -> (r: config_yaml::Config)
        requires
            self.wf(),
            forall|i: int| 0 <= i < self.profiles_seq().len()
                ==> (#[trigger] self.profiles_seq()[i]).1.0 is Some,
        ensures
            r.wf(),
            r.version@ == self.version@,
            r.path@ == self.path@,
            r.cache.path.0@ == self.cache.path.0@,
            r.cache.max_age.0 == self.cache.max_age.0,
            r.global.overrides.0@ == self.overrides@,
            forall|k: Seq<char>| #[trigger] r.profiles.as_map().contains_key(k)
                <==> self.profiles_map().contains_key(k),
            forall|k: Seq<char>| #[trigger] self.profiles_map().contains_key(k)
                ==> r.profiles.as_map()[k]
                    == (self.profiles_map()[k].0->0, self.profiles_map()[k].1),
    {
        let ghost ps = self.profiles_seq();
        let ghost cs = Seq::new(ps.len(), |i: int| (ps[i].0, (ps[i].1.0->0, ps[i].1.1)));
        let mut converted: Vec<(String, config_yaml::Profile)> = Vec::new();
        let n = self.profile.len();
        let mut i: usize = 0;
        while i < n
            invariant
                n == ps.len(),
                ps == self.profiles_seq(),
                cs == Seq::new(ps.len(), |k: int| (ps[k].0, (ps[k].1.0->0, ps[k].1.1))),
                self.wf(),
                forall|k: int| 0 <= k < ps.len() ==> (#[trigger] ps[k]).1.0 is Some,
                i <= n,
                converted@.len() == i,
                forall|k: int| 0 <= k < i ==> (#[trigger] converted@[k]).0@ == cs[k].0
                    && converted@[k].1@ == cs[k].1,
            decreases n - i,
        {
            let p = &self.profile[i];
            let cp = Profile {
                project: clone_opt_string(&p.1.project),
                environment: None,
                overrides: p.1.overrides.duplicate(),
            };
            proof {
                assert(cp@ == ps[i as int].1);
            }
            let yp = convert_toml_profile_to_yaml_profile(cp);
            converted.push((p.0.clone(), yp));
            i += 1;
        }
        proof {
            assert forall|k: int| 0 <= k < converted@.len()
                implies keys_unique((#[trigger] converted@[k]).1@.1) by {
                assert(converted@[k].1@.1 == cs[k].1.1);
                assert(cs[k].1.1 == ps[k].1.1);
            }
        }
        proof {
            assert(Seq::new(converted@.len(), |k: int| (converted@[k].0@, converted@[k].1@)) =~= cs);
        }
        let profiles = config_yaml::Profiles::new(converted);
        proof {
            assert(profiles.as_map() == pairs_to_map(cs));
            lemma_pairs_to_map_props(ps);
            lemma_pairs_to_map_props(cs);
            assert forall|j: int, k: int| 0 <= j < k < cs.len()
                implies (#[trigger] cs[j]).0 != (#[trigger] cs[k]).0 by {
                assert(ps[j].0 == cs[j].0 && ps[k].0 == cs[k].0);
            }
            assert forall|k: Seq<char>| #[trigger] pairs_to_map(cs).contains_key(k)
                <==> pairs_to_map(ps).contains_key(k) by {
                if pairs_to_map(cs).contains_key(k) {
                    let j = choose|j: int| 0 <= j < cs.len() && (#[trigger] cs[j]).0 == k;
                    assert(ps[j].0 == k);
                }
                if pairs_to_map(ps).contains_key(k) {
                    let j = choose|j: int| 0 <= j < ps.len() && (#[trigger] ps[j]).0 == k;
                    assert(cs[j].0 == k);
                }
            }
            assert forall|k: Seq<char>| #[trigger] pairs_to_map(ps).contains_key(k)
                implies pairs_to_map(cs)[k] == (pairs_to_map(ps)[k].0->0, pairs_to_map(ps)[k].1) by {
                let j = choose|j: int| 0 <= j < ps.len() && (#[trigger] ps[j]).0 == k;
                assert(pairs_to_map(ps)[ps[j].0] == ps[j].1);
                assert(cs[j].0 == k);
                assert(pairs_to_map(cs)[cs[j].0] == cs[j].1);
            }
        }
        config_yaml::Config {
            version: self.version.clone(),
            path: self.path.clone(),
            global: config_yaml::Global {
                overrides: GlobalOverrides(self.overrides.duplicate()),
            },
            profiles,
            cache: config_yaml::Cache {
                path: config_yaml::CachePath(self.cache.path.0.clone()),
                max_age: config_yaml::CacheMaxAge(self.cache.max_age.0),
            },
        }
    }
}

/// An owned copy of an optional string.
fn clone_opt_string(o: &Option<String>) -> (r: Option<String>)
    ensures
        match r {
            Option::Some(s) => o is Some && s@ == o->0@,
            Option::None => o is None,
        },
{
    match o {
        Some(s) => Some(s.clone()),
        None => None,
    }
}

} // verus!
