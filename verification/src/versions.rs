//! Semantic versions: reading and ordering them (through the `semver` crate), and whether a
//! version may be published into a track: an unreleased version passes unchecked, and a released
//! one must be newer than the newest version of its track, or the same version with another
//! build.
use vstd::prelude::*;
use crate::text::{append_str, from_chars, starts_with, starts_with_exec, to_chars};

verus! {

/// Whether `semver::Version::parse` reads the text as a version.
pub uninterp spec fn semver_valid(text: Seq<char>) -> bool;

/// Whether the version that `semver::Version::parse` reads from `a` is greater (`>`) than the
/// one it reads from `b`.
pub uninterp spec fn semver_newer(a: Seq<char>, b: Seq<char>) -> bool;

/// Reads both texts with `semver::Version::parse` and, where both are versions, compares them
/// with `semver::Version`'s `>`. Claimed: a result exactly where both texts are versions
/// (`semver_valid`), and then `semver_newer` of the two.
#[verifier::external_body]
pub(crate) fn newer_version(a: &str, b: &str) -> (r: Option<bool>)
    ensures
        r is Some <==> (semver_valid(a@) && semver_valid(b@)),
        r matches Some(x) ==> x == semver_newer(a@, b@),
{
    match (semver::Version::parse(a), semver::Version::parse(b)) {
        (Ok(x), Ok(y)) => Some(x > y),
        _ => None,
    }
}

/// The order of two versions by precedence, as `semver::Version::cmp_precedence` gives it
/// (build metadata aside): -1 (before), 0 (equal) or 1 (after).
pub uninterp spec fn semver_precedence(a: Seq<char>, b: Seq<char>) -> int;

/// The build metadata of a version, as `semver::Version::parse` reads it.
pub uninterp spec fn semver_build(text: Seq<char>) -> Seq<char>;

/// Reads both texts with `semver::Version::parse` and, where both are versions, orders them
/// with `semver::Version::cmp_precedence`, as -1, 0 or 1. Claimed: a result exactly where both
/// texts are versions (`semver_valid`), and then the sign of `semver_precedence` of the two.
#[verifier::external_body]
fn precedence_order(a: &str, b: &str) -> (r: Option<i8>)
    ensures
        r is Some <==> (semver_valid(a@) && semver_valid(b@)),
        r matches Some(o) ==> o == semver_precedence(a@, b@),
{
    match (semver::Version::parse(a), semver::Version::parse(b)) {
        (Ok(x), Ok(y)) => match x.cmp_precedence(&y) {
            std::cmp::Ordering::Less => Some(-1),
            std::cmp::Ordering::Equal => Some(0),
            std::cmp::Ordering::Greater => Some(1),
        },
        _ => None,
    }
}

/// Reads the text with `semver::Version::parse` and gives its build metadata as text. Claimed:
/// a result exactly where the text is a version (`semver_valid`), and then `semver_build` of it.
#[verifier::external_body]
fn build_metadata(a: &str) -> (r: Option<String>)
    ensures
        r is Some <==> semver_valid(a@),
        r matches Some(b) ==> b@ == semver_build(a@),
{
    match semver::Version::parse(a) {
        Ok(v) => Some(v.build.as_str().to_string()),
        Err(_) => None,
    }
}

/// The pre-release part of a version, as `semver::Version::parse` reads it.
pub uninterp spec fn semver_pre(text: Seq<char>) -> Seq<char>;

/// Reads the text with `semver::Version::parse` and gives its pre-release part as text. Claimed:
/// a result exactly where the text is a version (`semver_valid`), and then `semver_pre` of it.
#[verifier::external_body]
pub(crate) fn prerelease(a: &str) -> (r: Option<String>)
    ensures
        r is Some <==> semver_valid(a@),
        r matches Some(p) ==> p@ == semver_pre(a@),
{
    match semver::Version::parse(a) {
        Ok(v) => Some(v.pre.as_str().to_string()),
        Err(_) => None,
    }
}

/// A version may be published as stable (as providers are): it is a semantic version without a
/// pre-release part and without build metadata. Otherwise the error says which.
pub fn check_stable_version(version: &str) -> (r: Result<(), VersionCheckError>)
    ensures
        r is Ok <==> semver_valid(version@) && semver_pre(version@).len() == 0 && semver_build(version@).len() == 0,
        r matches Err(e) ==> outcome_of(Err(e)) == (if semver_valid(version@) {
            CheckOutcome::NotStable(version@)
        } else {
            CheckOutcome::InvalidVersion(version@)
        }),
{
    let pre = match prerelease(version) {
        None => {
            return Err(VersionCheckError::InvalidVersion(version.to_string()));
        },
        Some(p) => p,
    };
    let build = match build_metadata(version) {
        None => {
            return Err(VersionCheckError::InvalidVersion(version.to_string()));
        },
        Some(b) => b,
    };
    if to_chars(pre.as_str()).len() == 0 && to_chars(build.as_str()).len() == 0 {
        Ok(())
    } else {
        Err(VersionCheckError::NotStable(version.to_string()))
    }
}

/// How a version to publish stands against the newest version of its track.
pub enum VersionCheck {
    /// The version starts with `0.0.0`: an unreleased version, not checked.
    Unreleased,
    /// The track has no version yet: this is the first.
    First,
    /// The version is newer than the newest of the track, or the same version with another
    /// build.
    Newer,
}

/// Why a version may not be published.
pub enum VersionCheckError {
    /// The text is not a semantic version.
    InvalidVersion(String),
    /// The same version with the same build exists: (what is published, version, track).
    AlreadyExists(String, String, Option<String>),
    /// The version is older than the newest: (what is published, version, newest, track).
    OlderThanLatest(String, String, String, Option<String>),
    /// The version has a pre-release part or build metadata where a stable one is needed.
    NotStable(String),
}

/// The outcome of a version check, as values.
pub enum CheckOutcome {
    Unreleased,
    First,
    Newer,
    InvalidVersion(Seq<char>),
    AlreadyExists(Seq<char>, Seq<char>, Option<Seq<char>>),
    OlderThanLatest(Seq<char>, Seq<char>, Seq<char>, Option<Seq<char>>),
    NotStable(Seq<char>),
}

pub open spec fn opt_text(o: Option<&str>) -> Option<Seq<char>> {
    match o {
        Some(t) => Some(t@),
        None => None,
    }
}

pub open spec fn opt_string(o: Option<String>) -> Option<Seq<char>> {
    match o {
        Some(t) => Some(t@),
        None => None,
    }
}

pub open spec fn outcome_of(r: Result<VersionCheck, VersionCheckError>) -> CheckOutcome {
    match r {
        Ok(VersionCheck::Unreleased) => CheckOutcome::Unreleased,
        Ok(VersionCheck::First) => CheckOutcome::First,
        Ok(VersionCheck::Newer) => CheckOutcome::Newer,
        Err(VersionCheckError::InvalidVersion(v)) => CheckOutcome::InvalidVersion(v@),
        Err(VersionCheckError::AlreadyExists(e, v, t)) => CheckOutcome::AlreadyExists(e@, v@, opt_string(t)),
        Err(VersionCheckError::OlderThanLatest(e, v, l, t)) => CheckOutcome::OlderThanLatest(e@, v@, l@, opt_string(t)),
        Err(VersionCheckError::NotStable(v)) => CheckOutcome::NotStable(v@),
    }
}

/// The check of a version against the newest version of its track (`latest`, where the track
/// has one): unreleased versions (`0.0.0...`) pass unchecked; with no newest version this is
/// the first; else both must be semantic versions (the version is read first), and by
/// precedence the version must be newer, or equal with other build metadata.
pub open spec fn version_check(
    entity: Seq<char>,
    version: Seq<char>,
    track: Option<Seq<char>>,
    latest: Option<Seq<char>>,
) -> CheckOutcome {
    if starts_with(version, "0.0.0"@) {
        CheckOutcome::Unreleased
    } else {
        match latest {
            None => CheckOutcome::First,
            Some(l) => if !semver_valid(version) {
                CheckOutcome::InvalidVersion(version)
            } else if !semver_valid(l) {
                CheckOutcome::InvalidVersion(l)
            } else if semver_precedence(version, l) == 0 {
                if semver_build(version) == semver_build(l) {
                    CheckOutcome::AlreadyExists(entity, version, track)
                } else {
                    CheckOutcome::Newer
                }
            } else if semver_precedence(version, l) < 0 {
                CheckOutcome::OlderThanLatest(entity, version, l, track)
            } else {
                CheckOutcome::Newer
            },
        }
    }
}

fn copy_opt(o: Option<&str>) -> (r: Option<String>)
    ensures
        opt_string(r) == opt_text(o),
{
    match o {
        Some(t) => Some(t.to_string()),
        None => None,
    }
}

/// Whether `version` may be published as the newest version of its track (see
/// `version_check`); `entity` names what is published (`Module`, `Stack`, `Provider`), and
/// `track` is `None` where versions have no track.
pub fn check_version_against_latest(
    entity: &str,
    version: &str,
    track: Option<&str>,
    latest: Option<&str>,
) -> (r: Result<VersionCheck, VersionCheckError>)
    ensures
        outcome_of(r) == version_check(entity@, version@, opt_text(track), opt_text(latest)),
        (r matches Ok(VersionCheck::Unreleased)) <==> (version@.len() >= 5 && version@.subrange(0, 5) == seq!['0', '.', '0', '.', '0']),
{
    proof {
        law_only_a_0_0_0_version_is_unreleased(entity@, version@, opt_text(track), opt_text(latest));
    }
    if starts_with_exec(to_chars(version).as_slice(), to_chars("0.0.0").as_slice()) {
        return Ok(VersionCheck::Unreleased);
    }
    let l = match latest {
        None => {
            return Ok(VersionCheck::First);
        },
        Some(l) => l,
    };
    let vb = match build_metadata(version) {
        None => {
            return Err(VersionCheckError::InvalidVersion(version.to_string()));
        },
        Some(b) => b,
    };
    let lb = match build_metadata(l) {
        None => {
            return Err(VersionCheckError::InvalidVersion(l.to_string()));
        },
        Some(b) => b,
    };
    let order = match precedence_order(version, l) {
        None => {
            return Err(VersionCheckError::InvalidVersion(version.to_string()));
        },
        Some(o) => o,
    };
    if order == 0 {
        if vb == lb {
            Err(VersionCheckError::AlreadyExists(entity.to_string(), version.to_string(), copy_opt(track)))
        } else {
            Ok(VersionCheck::Newer)
        }
    } else if order < 0 {
        Err(VersionCheckError::OlderThanLatest(entity.to_string(), version.to_string(), l.to_string(), copy_opt(track)))
    } else {
        Ok(VersionCheck::Newer)
    }
}

/// Only a version whose text begins with `0.0.0` is unreleased and passes unchecked. Any
/// other version that is, by precedence, older than the newest version of its track (both
/// being versions) is refused as older than it.
pub proof fn law_only_a_0_0_0_version_is_unreleased(
    entity: Seq<char>,
    version: Seq<char>,
    track: Option<Seq<char>>,
    latest: Option<Seq<char>>,
)
    ensures
        (version_check(entity, version, track, latest) == CheckOutcome::Unreleased)
            <==> (version.len() >= 5 && version.subrange(0, 5) == seq!['0', '.', '0', '.', '0']),
        match latest {
            Some(l) => (!(version.len() >= 5 && version.subrange(0, 5) == seq!['0', '.', '0', '.', '0'])
                && semver_valid(version) && semver_valid(l) && semver_precedence(version, l) < 0)
                ==> version_check(entity, version, track, latest) == CheckOutcome::OlderThanLatest(entity, version, l, track),
            None => true,
        },
{
    reveal_strlit("0.0.0");
    assert("0.0.0"@ =~= seq!['0', '.', '0', '.', '0']);
}

/// A released version (one whose text does not begin with `0.0.0`) is the first of its track
/// where the track has no version yet; otherwise both it and the newest must be versions (the
/// version's own fault reported first), and then, by precedence, a newer version passes, an
/// older one is refused, and an equal one passes only with other build metadata: with the
/// same it already exists.
pub proof fn law_released_versions_by_precedence(
    entity: Seq<char>,
    version: Seq<char>,
    track: Option<Seq<char>>,
    latest: Option<Seq<char>>,
)
    requires
        !(version.len() >= 5 && version.subrange(0, 5) == seq!['0', '.', '0', '.', '0']),
    ensures
        latest is None ==> version_check(entity, version, track, latest) == CheckOutcome::First,
        match latest {
            Some(l) => {
                let out = version_check(entity, version, track, latest);
                &&& !semver_valid(version) ==> out == CheckOutcome::InvalidVersion(version)
                &&& semver_valid(version) && !semver_valid(l) ==> out == CheckOutcome::InvalidVersion(l)
                &&& semver_valid(version) && semver_valid(l) && semver_precedence(version, l) > 0
                    ==> out == CheckOutcome::Newer
                &&& semver_valid(version) && semver_valid(l) && semver_precedence(version, l) < 0
                    ==> out == CheckOutcome::OlderThanLatest(entity, version, l, track)
                &&& semver_valid(version) && semver_valid(l) && semver_precedence(version, l) == 0
                    ==> out == (if semver_build(version) == semver_build(l) {
                        CheckOutcome::AlreadyExists(entity, version, track)
                    } else {
                        CheckOutcome::Newer
                    })
            },
            None => true,
        },
{
    law_only_a_0_0_0_version_is_unreleased(entity, version, track, latest);
    reveal_strlit("0.0.0");
    assert("0.0.0"@ =~= seq!['0', '.', '0', '.', '0']);
}

/// The text of a version check error, as the publishing commands report it.
pub open spec fn check_error_text(e: CheckOutcome) -> Seq<char> {
    match e {
        CheckOutcome::InvalidVersion(v) => v + " is not a semantic version"@,
        CheckOutcome::AlreadyExists(e, v, t) => e + " version "@ + v + " already exists"@ + match t {
            Some(t) => " in track "@ + t,
            None => Seq::empty(),
        },
        CheckOutcome::OlderThanLatest(e, v, l, t) => e + " version "@ + v + " is older than the latest version "@ + l
            + match t {
            Some(t) => " in track "@ + t,
            None => Seq::empty(),
        },
        CheckOutcome::NotStable(v) => "Version "@ + v + " is not a stable version: it has a pre-release part or build metadata"@,
        _ => Seq::empty(),
    }
}

impl VersionCheckError {
    /// The text of the error (see `check_error_text`).
    pub fn message(&self) -> (r: String)
        ensures
            r@ == check_error_text(outcome_of(Err(*self))),
    {
        let mut out: Vec<char> = Vec::new();
        match self {
            VersionCheckError::InvalidVersion(v) => {
                append_str(&mut out, v.as_str());
                append_str(&mut out, " is not a semantic version");
            },
            VersionCheckError::AlreadyExists(e, v, t) => {
                append_str(&mut out, e.as_str());
                append_str(&mut out, " version ");
                append_str(&mut out, v.as_str());
                append_str(&mut out, " already exists");
                match t {
                    Some(t) => {
                        append_str(&mut out, " in track ");
                        append_str(&mut out, t.as_str());
                    },
                    None => {},
                }
            },
            VersionCheckError::OlderThanLatest(e, v, l, t) => {
                append_str(&mut out, e.as_str());
                append_str(&mut out, " version ");
                append_str(&mut out, v.as_str());
                append_str(&mut out, " is older than the latest version ");
                append_str(&mut out, l.as_str());
                match t {
                    Some(t) => {
                        append_str(&mut out, " in track ");
                        append_str(&mut out, t.as_str());
                    },
                    None => {},
                }
            },
            VersionCheckError::NotStable(v) => {
                append_str(&mut out, "Version ");
                append_str(&mut out, v.as_str());
                append_str(&mut out, " is not a stable version: it has a pre-release part or build metadata");
            },
        }
        let r = from_chars(out.as_slice());
        assert(r@ =~= check_error_text(outcome_of(Err(*self))));
        r
    }
}

} // verus!
