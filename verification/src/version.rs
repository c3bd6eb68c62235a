//! Semantic versions and version requirements.
//!
//! Parsing and matching are done by the `semver` crate. What it returns is
//! named here by specification functions without a body, so that the rest of
//! the library can say exactly which of its results it used.

use vstd::prelude::*;
use crate::error::{ErrorKind, ErrorView, RavenError};

verus! {

/// What `semver::Version::parse` makes of `text`: the numbers and the two
/// identifier texts of the version (major, minor, patch, pre-release, build
/// metadata), or the text of its error.
pub uninterp spec fn semver_version(text: Seq<char>) -> Result<
    (u64, u64, u64, Seq<char>, Seq<char>),
    Seq<char>,
>;

/// What `semver::VersionReq::parse` makes of `text`: the requirement as
/// `semver` writes it, or the text of its error.
pub uninterp spec fn semver_requirement(text: Seq<char>) -> Result<Seq<char>, Seq<char>>;

/// What `semver::VersionReq::matches` answers for the requirement and the
/// version that the two texts parse to; `None` where one of them does not
/// parse.
pub uninterp spec fn semver_matches(requirement: Seq<char>, version: Seq<char>) -> Option<bool>;

/// Whether `semver` orders the version that the first text parses to
/// strictly after the one that the second parses to; `None` where one of
/// them does not parse.
pub uninterp spec fn semver_newer(candidate: Seq<char>, installed: Seq<char>) -> Option<bool>;

/// Whether the requirement and the version both parse and the requirement
/// accepts the version.
pub open spec fn requirement_accepts(requirement: Seq<char>, version: Seq<char>) -> bool {
    semver_matches(requirement, version) == Some(true)
}

/// Whether both texts parse as versions and the first is strictly later
/// than the second.
pub open spec fn version_is_newer(candidate: Seq<char>, installed: Seq<char>) -> bool {
    semver_newer(candidate, installed) == Some(true)
}

/// A parsed semantic version.
#[derive(Debug)]
pub struct Version {
    pub major: u64,
    pub minor: u64,
    pub patch: u64,
    /// Pre-release identifiers, without the leading `-`; empty if none.
    pub pre: String,
    /// Build metadata, without the leading `+`; empty if none.
    pub build: String,
}

impl View for Version {
    type V = (u64, u64, u64, Seq<char>, Seq<char>);

    open spec fn view(&self) -> (u64, u64, u64, Seq<char>, Seq<char>) {
        (self.major, self.minor, self.patch, self.pre@, self.build@)
    }
}

/// The views of a parse result.
pub open spec fn parsed_view(r: Result<Version, String>) -> Result<
    (u64, u64, u64, Seq<char>, Seq<char>),
    Seq<char>,
> {
    match r {
        Ok(v) => Ok(v@),
        Err(e) => Err(e@),
    }
}

/// The views of a result that holds a text either way.
pub open spec fn text_result_view(r: Result<String, String>) -> Result<Seq<char>, Seq<char>> {
    match r {
        Ok(t) => Ok(t@),
        Err(e) => Err(e@),
    }
}

/// Calls `semver::Version::parse` and copies the fields of the version, or
/// the text of the error, into plain values. The result is the one named
/// `semver_version`.
#[verifier::external_body]
pub(crate) fn semver_parse_version(text: &str) -> (r: Result<Version, String>)
    ensures
        parsed_view(r) == semver_version(text@),
{
    match semver::Version::parse(text) {
        Ok(v) => Ok(
            Version {
                major: v.major,
                minor: v.minor,
                patch: v.patch,
                pre: v.pre.as_str().to_string(),
                build: v.build.as_str().to_string(),
            },
        ),
        Err(e) => Err(e.to_string()),
    }
}

/// Calls `semver::VersionReq::parse` and returns the requirement in the form
/// in which `semver` displays it, or the text of the error. The result is
/// the one named `semver_requirement`.
#[verifier::external_body]
pub(crate) fn semver_parse_requirement(text: &str) -> (r: Result<String, String>)
    ensures
        text_result_view(r) == semver_requirement(text@),
{
    match semver::VersionReq::parse(text) {
        Ok(req) => Ok(req.to_string()),
        Err(e) => Err(e.to_string()),
    }
}

/// Parses both texts with `semver` and calls `semver::VersionReq::matches`.
/// The result is the one named `semver_matches`; it is `None` exactly where
/// `semver` refuses one of the texts, that is, where `semver_requirement`
/// or `semver_version` names an error.
#[verifier::external_body]
pub(crate) fn semver_requirement_matches(requirement: &str, version: &str) -> (r: Option<bool>)
    ensures
        r == semver_matches(requirement@, version@),
        r is Some <==> (semver_requirement(requirement@) is Ok && semver_version(version@) is Ok),
{
    match (semver::VersionReq::parse(requirement), semver::Version::parse(version)) {
        (Ok(req), Ok(v)) => Some(req.matches(&v)),
        _ => None,
    }
}

/// Parses both texts with `semver` and compares the versions by the order
/// that `semver::Version` implements. The result is the one named
/// `semver_newer`; it is `None` exactly where `semver` refuses one of the
/// texts, that is, where `semver_version` names an error.
#[verifier::external_body]
pub(crate) fn semver_version_newer(candidate: &str, installed: &str) -> (r: Option<bool>)
    ensures
        r == semver_newer(candidate@, installed@),
        r is Some <==> (semver_version(candidate@) is Ok && semver_version(installed@) is Ok),
{
    match (semver::Version::parse(candidate), semver::Version::parse(installed)) {
        (Ok(c), Ok(i)) => Some(c > i),
        _ => None,
    }
}

/// The error for a text that is no semantic version.
pub open spec fn version_error(detail: Seq<char>) -> ErrorView {
    ErrorView { kind: ErrorKind::Version, detail }
}

/// The outcome of `Version::parse` on a text, given what `semver` made of
/// it.
pub open spec fn parse_outcome(
    parsed: Result<(u64, u64, u64, Seq<char>, Seq<char>), Seq<char>>,
) -> Result<(u64, u64, u64, Seq<char>, Seq<char>), ErrorView> {
    match parsed {
        Ok(v) => Ok(v),
        Err(e) => Err(version_error(e)),
    }
}

/// The views of a result of `Version::parse`.
pub open spec fn version_result_view(r: Result<Version, RavenError>) -> Result<
    (u64, u64, u64, Seq<char>, Seq<char>),
    ErrorView,
> {
    match r {
        Ok(v) => Ok(v@),
        Err(e) => Err(e@),
    }
}

impl Version {
    /// Parses a strict semantic version. A text that `semver` refuses gives
    /// a `VersionError` with the text of its error.
    pub fn parse(text: &str) -> (r: Result<Version, RavenError>)
        ensures
            version_result_view(r) == parse_outcome(semver_version(text@)),
    {
        match semver_parse_version(text) {
            Ok(v) => Ok(v),
            Err(e) => Err(RavenError::VersionError(e)),
        }
    }
}

/// Whether a text is a strict semantic version.
pub fn is_version(text: &str) -> (r: bool)
    ensures
        r == semver_version(text@) is Ok,
{
    semver_parse_version(text).is_ok()
}

/// Whether `candidate` is a strictly later version than `installed`.
/// `false` where either is no version.
pub fn version_newer(candidate: &str, installed: &str) -> (r: bool)
    ensures
        r == version_is_newer(candidate@, installed@),
        r ==> semver_version(candidate@) is Ok && semver_version(installed@) is Ok,
{
    match semver_version_newer(candidate, installed) {
        Some(newer) => newer,
        None => false,
    }
}

} // verus!
