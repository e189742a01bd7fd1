//! The tool's version and the configuration's version requirement. The
//! version is held as its three numeric components; the requirement is held
//! as its text, and the semver grammar decides validity and matching.

use vstd::prelude::*;
use crate::error::ConfigError;

verus! {

/// A semantic version: the three numeric components the tool compares.
#[derive(Debug, Clone, Copy, PartialEq, Eq, Structural)]
pub struct Version {
    pub major: u64,
    pub minor: u64,
    pub patch: u64,
}

impl Version {
    pub fn new(major: u64, minor: u64, patch: u64) -> (r: Version)
        ensures
            r.major == major,
            r.minor == minor,
            r.patch == patch,
    {
        Version { major, minor, patch }
    }

    /// Precedence order: by major, then minor, then patch component.
    pub open spec fn spec_precedes(self, other: Version) -> bool {
        if self.major != other.major {
            self.major < other.major
        } else if self.minor != other.minor {
            self.minor < other.minor
        } else {
            self.patch < other.patch
        }
    }

    /// Whether `self` precedes `other`, used by the update check.
    pub fn precedes(&self, other: &Version) -> (r: bool)
        ensures
            r == self.spec_precedes(*other),
    {
        if self.major != other.major {
            self.major < other.major
        } else if self.minor != other.minor {
            self.minor < other.minor
        } else {
            self.patch < other.patch
        }
    }
}

/// Whether `req` is a well-formed semver requirement, as the semver grammar
/// has it; a function of the text alone.
pub uninterp spec fn req_wf(req: Seq<char>) -> bool;

/// Whether the version `major.minor.patch` satisfies the well-formed
/// requirement `req`; a function of the arguments alone.
pub uninterp spec fn req_matches(req: Seq<char>, major: u64, minor: u64, patch: u64) -> bool;

/// Relies on semver::VersionReq::parse: it succeeds exactly on the texts the
/// semver requirement grammar admits.
#[verifier::external_body]
fn semver_req_is_valid(text: &str) -> (r: bool)
    ensures
        r == req_wf(text@),
{
    semver::VersionReq::parse(text).is_ok()
}

/// Relies on semver::VersionReq::parse and semver::VersionReq::matches:
/// parsing is a function of the text, and matching a plain version against
/// the parsed requirement is a function of the requirement and the version.
#[verifier::external_body]
fn semver_req_matches(text: &str, major: u64, minor: u64, patch: u64) -> (r: bool)
    requires
        req_wf(text@),
    ensures
        r == req_matches(text@, major, minor, patch),
{
    match semver::VersionReq::parse(text) {
        Ok(req) => req.matches(&semver::Version::new(major, minor, patch)),
        Err(_) => false,
    }
}

/// A semantic version requirement, held as its (valid) text.
#[derive(Debug)]
pub struct VersionReq {
    text: String,
}

impl View for VersionReq {
    type V = Seq<char>;

    closed spec fn view(&self) -> Seq<char> {
        self.text@
    }
}

impl VersionReq {
    /// Well-formedness: the text is one the semver grammar admits.
    pub open spec fn wf(self) -> bool {
        req_wf(self@)
    }

    /// Parses a requirement text; fails exactly where the semver grammar
    /// rejects it.
    pub fn parse(text: &str) -> (r: Result<VersionReq, ConfigError>)
        ensures
            match r {
                Ok(v) => req_wf(text@) && v@ == text@ && v.wf(),
                Err(e) => !req_wf(text@) && e == ConfigError::Invalid,
            },
    {
        if semver_req_is_valid(text) {
            Ok(VersionReq { text: text.to_owned() })
        } else {
            Err(ConfigError::Invalid)
        }
    }

    /// Whether `version` satisfies this requirement.
    pub fn matches(&self, version: &Version) -> (r: bool)
        requires
            self.wf(),
        ensures
            r == req_matches(self@, version.major, version.minor, version.patch),
    {
        semver_req_matches(self.text.as_str(), version.major, version.minor, version.patch)
    }

    /// The requirement's text.
    pub fn as_str(&self) -> (r: &str)
        ensures
            r@ == self@,
    {
        self.text.as_str()
    }

    pub fn clone(&self) -> (r: VersionReq)
        ensures
            r@ == self@,
            self.wf() ==> r.wf(),
    {
        VersionReq { text: self.text.clone() }
    }
}

/// Parses `req` and decides whether `version` satisfies it; nothing,
/// where the text is not a requirement the grammar admits.
pub fn version_satisfies(req: &str, version: &Version) -> (r: Option<bool>)
    ensures
        match r {
            Option::Some(b) => req_wf(req@) && b == req_matches(
                req@,
                version.major,
                version.minor,
                version.patch,
            ),
            Option::None => !req_wf(req@),
        },
{
    match VersionReq::parse(req) {
        Ok(vr) => Some(vr.matches(version)),
        Err(_) => None,
    }
}

impl PartialEq for VersionReq {
    fn eq(&self, other: &VersionReq) -> (r: bool) {
        self.text == other.text
    }
}

impl vstd::std_specs::cmp::PartialEqSpecImpl for VersionReq {
    open spec fn obeys_eq_spec() -> bool {
        true
    }

    open spec fn eq_spec(&self, other: &VersionReq) -> bool {
        self@ == other@
    }
}

} // verus!
