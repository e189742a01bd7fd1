use bwenv::error::ConfigError;
use bwenv::time::{is_date_older_than_n_seconds, is_older_at};
use bwenv::version::{version_satisfies, Version, VersionReq};

#[test]
fn requirement_matching_through_semver() {
    let v130 = Version::new(1, 3, 0);
    assert_eq!(version_satisfies("^1.2", &v130), Some(true));
    assert_eq!(version_satisfies("^1.2", &Version::new(2, 0, 0)), Some(false));
    assert_eq!(version_satisfies(">=1.0, <2.0", &v130), Some(true));
    assert_eq!(version_satisfies("=1.3.0", &v130), Some(true));
    assert_eq!(version_satisfies("=1.3.1", &v130), Some(false));
    assert_eq!(version_satisfies("*", &Version::new(0, 0, 1)), Some(true));
    assert_eq!(version_satisfies("not a requirement", &v130), None);
}

#[test]
fn parse_rejects_bad_requirements() {
    assert!(VersionReq::parse("1.0.0").is_ok());
    assert!(VersionReq::parse("^1").is_ok());
    let err = VersionReq::parse("??").unwrap_err();
    assert_eq!(err, ConfigError::Invalid);
}

#[test]
fn requirement_matches_method() {
    let req = VersionReq::parse("^1.0").unwrap();
    assert!(req.matches(&Version::new(1, 9, 9)));
    assert!(!req.matches(&Version::new(2, 0, 0)));
    assert_eq!(req.as_str(), "^1.0");
    assert_eq!(req, VersionReq::parse("^1.0").unwrap());
}

#[test]
fn precedence_order_of_versions() {
    let a = Version::new(1, 2, 3);
    assert!(a.precedes(&Version::new(2, 0, 0)));
    assert!(a.precedes(&Version::new(1, 3, 0)));
    assert!(a.precedes(&Version::new(1, 2, 4)));
    assert!(!a.precedes(&Version::new(1, 2, 3)));
    assert!(!a.precedes(&Version::new(1, 2, 2)));
    assert!(!a.precedes(&Version::new(0, 9, 9)));
}

#[test]
fn age_comparison_at_a_given_clock() {
    // written at 1000 seconds (as milliseconds), allowance 60 seconds
    assert!(!is_older_at(1_000_000, 60, 1060));
    assert!(is_older_at(1_000_000, 60, 1061));
    assert!(!is_older_at(1_000_000, 60, 1000));
    // an allowance past the clock reading can never be exceeded
    assert!(!is_older_at(0, u64::MAX, 2_000_000_000));
}

#[test]
fn epoch_is_older_than_now() {
    assert!(is_date_older_than_n_seconds(0, &0));
    assert!(!is_date_older_than_n_seconds(u64::MAX / 2, &u64::MAX));
}
