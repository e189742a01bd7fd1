use bwenv::config::{find_local_config, LocalConfig};
use bwenv::config_toml;
use bwenv::config_yaml::{Cache, CacheMaxAge, CachePath, Config, Global, Profile, Profiles};
use bwenv::error::ConfigError;
use bwenv::secrets::{GlobalOverrides, Secrets};
use bwenv::version::VersionReq;

fn secrets_of(pairs: &[(&str, &str)]) -> Secrets {
    let mut s = Secrets::new();
    for (k, v) in pairs {
        s.insert((*k).to_string(), (*v).to_string());
    }
    s
}

fn config_with(global: &[(&str, &str)], profiles: Vec<(String, Profile)>) -> Config {
    Config {
        version: VersionReq::parse("1.0.0").unwrap(),
        cache: Cache::default(),
        global: Global { overrides: GlobalOverrides(secrets_of(global)) },
        profiles: Profiles::new(profiles),
        path: String::new(),
    }
}

#[test]
fn finds_yaml_config_in_current_dir() {
    let result = find_local_config(Some("/work/bwenv.yaml".to_string()), None, None);
    assert!(result.is_ok());
    let config = result.unwrap();
    assert!(matches!(config, LocalConfig::Yaml(_)));
    assert_eq!(config.as_pathbuf(), "/work/bwenv.yaml");
}

#[test]
fn finds_toml_config_in_parent_dir() {
    let result = find_local_config(None, None, Some("/work/child/../bwenv.toml".to_string()));
    assert!(result.is_ok());
    let config = result.unwrap();
    assert!(matches!(config, LocalConfig::Toml(_)));
}

#[test]
fn config_not_found_returns_error() {
    let result = find_local_config(None, None, None);
    assert!(result.is_err());
    let error = result.unwrap_err();
    assert!(matches!(error, ConfigError::NotFound));
}

#[test]
fn yaml_preferred_over_yml_and_toml() {
    let r = find_local_config(
        Some("/a/bwenv.yaml".to_string()),
        Some("/a/bwenv.yml".to_string()),
        Some("/a/bwenv.toml".to_string()),
    )
    .unwrap();
    assert_eq!(r.as_pathbuf(), "/a/bwenv.yaml");

    let r = find_local_config(None, Some("/a/bwenv.yml".to_string()), Some("/a/bwenv.toml".to_string()))
        .unwrap();
    assert_eq!(r.as_pathbuf(), "/a/bwenv.yml");
    assert!(matches!(r, LocalConfig::Yaml(_)));
}

#[test]
fn test_config_evaluate_profile_not_found() {
    let config = config_with(&[], Vec::new());
    let result = config.evaluate("nonexistent");
    assert!(matches!(result, Err(ConfigError::NoProfile)));
}

#[test]
fn test_config_evaluate_with_overrides() {
    let profile = Profile {
        project_id: "test_project".to_string(),
        overrides: secrets_of(&[
            ("profile_key", "profile_value"),
            ("global_key", "overridden_global_value"),
        ]),
    };
    let config = config_with(
        &[("global_key", "global_value")],
        vec![("test_profile".to_string(), profile)],
    );

    let eval_result = config.evaluate("test_profile").unwrap();

    assert_eq!(eval_result.profile_name, "test_profile");
    assert_eq!(eval_result.project_id, "test_project");
    assert_eq!(
        eval_result.overrides.get("global_key").unwrap(),
        "overridden_global_value"
    );
    assert_eq!(
        eval_result.overrides.get("profile_key").unwrap(),
        "profile_value"
    );
}

#[test]
fn test_global_overrides_without_profile() {
    let config = config_with(&[("global_key", "global_value")], Vec::new());
    let eval_result = config.evaluate("nonexistent").err().unwrap();
    assert!(matches!(eval_result, ConfigError::NoProfile));
}

#[test]
fn evaluate_carries_version_and_max_age() {
    let profile = Profile { project_id: "p1".to_string(), overrides: Secrets::new() };
    let mut config = config_with(&[], vec![("default".to_string(), profile)]);
    config.cache = Cache { path: CachePath("/tmp/cache".to_string()), max_age: CacheMaxAge(123) };

    let ev = config.evaluate("default").unwrap();
    assert_eq!(*ev.max_age.as_u64(), 123);
    assert_eq!(ev.version_req.as_str(), "1.0.0");
    assert_eq!(ev.version_req, VersionReq::parse("1.0.0").unwrap());
}

#[test]
fn later_profile_of_same_name_wins() {
    let first = Profile { project_id: "first".to_string(), overrides: Secrets::new() };
    let second = Profile { project_id: "second".to_string(), overrides: Secrets::new() };
    let config = config_with(
        &[],
        vec![("p".to_string(), first), ("p".to_string(), second)],
    );
    assert_eq!(config.evaluate("p").unwrap().project_id, "second");
}

#[test]
fn defaults_of_the_cache_section() {
    let cache = Cache::default();
    assert_eq!(*cache.max_age.as_u64(), 86400);
    assert_eq!(cache.path.as_pathbuf(), ".cache");
    assert_eq!(*CacheMaxAge::default().as_u64(), 86400);
    assert_eq!(CachePath::default().as_pathbuf(), ".cache");
}

#[test]
fn toml_config_conversion() {
    let toml_profile = config_toml::Profile {
        project: Some("other_project".to_string()),
        environment: None,
        overrides: secrets_of(&[("TEST_VALUE", "other")]),
    };
    let mut config = config_toml::Config {
        version: VersionReq::parse(">=0.9").unwrap(),
        environment: None,
        cache: config_toml::Cache {
            max_age: CacheMaxAge(600),
            path: CachePath(".cache".to_string()),
        },
        project: Some("main_project".to_string()),
        overrides: secrets_of(&[("FORCE_COLOR", "1")]),
        profile: vec![("other".to_string(), toml_profile)],
        path: "bwenv.toml".to_string(),
    };

    config.add_default_profile();
    let yaml = config.as_yaml_config();

    let default_ev = yaml.evaluate("default").unwrap();
    assert_eq!(default_ev.project_id, "main_project");
    assert_eq!(default_ev.overrides.get("FORCE_COLOR").unwrap(), "1");

    let other_ev = yaml.evaluate("other").unwrap();
    assert_eq!(other_ev.project_id, "other_project");
    assert_eq!(other_ev.overrides.get("TEST_VALUE").unwrap(), "other");
    assert_eq!(other_ev.overrides.get("FORCE_COLOR").unwrap(), "1");
    assert_eq!(*yaml.cache.max_age.as_u64(), 600);
}

#[test]
fn convert_profile_keeps_fields() {
    let toml_profile = config_toml::Profile {
        project: Some("pid".to_string()),
        environment: Some("prod".to_string()),
        overrides: secrets_of(&[("A", "1")]),
    };
    let yp = config_toml::convert_toml_profile_to_yaml_profile(toml_profile);
    assert_eq!(yp.project_id, "pid");
    assert_eq!(yp.overrides.get("A").unwrap(), "1");
}

#[test]
fn toml_extension_check() {
    assert!(config_toml::is_toml_path("bwenv.toml"));
    assert!(config_toml::is_toml_path("/a/b/c.toml"));
    assert!(!config_toml::is_toml_path("bwenv.yaml"));
    assert!(!config_toml::is_toml_path("toml"));
    assert!(!config_toml::is_toml_path(""));
}
