//! Versions and requirements of PEP 440, parsed and ordered by the `pep440_rs` crate.
use crate::text::{decimal, push_decimal, string_of, trim, trimmed};
use pep440_rs::Operator;
use std::str::FromStr;
use vstd::prelude::*;

verus! {

/// What a [`PepVersion`] stands for.
pub struct PepVersionView {
    pub release: Seq<u64>,
    pub stable: bool,
    pub text: Seq<char>,
}

/// The number at place `i` of a release, or zero where the release is shorter.
pub open spec fn release_number(release: Seq<u64>, i: int) -> u64 {
    if 0 <= i < release.len() {
        release[i]
    } else {
        0
    }
}

impl PepVersionView {
    /// Whether `self` and `other` agree in the first three numbers of their releases, a number
    /// that is left out counting as zero.
    pub open spec fn same_release(self, other: PepVersionView) -> bool {
        &&& release_number(self.release, 0) == release_number(other.release, 0)
        &&& release_number(self.release, 1) == release_number(other.release, 1)
        &&& release_number(self.release, 2) == release_number(other.release, 2)
    }
}

/// A version of PEP 440: the plain values that `pep440_rs` reads out of a version string.
#[derive(Debug, Clone, PartialEq, Eq)]
pub struct PepVersion {
    /// The numbers of the release segment.
    pub release: Vec<u64>,
    /// Whether the version is neither a pre-release (alpha, beta, release candidate) nor a
    /// development release.
    pub stable: bool,
    /// The version written out in its normal form.
    pub text: String,
}

impl View for PepVersion {
    type V = PepVersionView;

    open spec fn view(&self) -> PepVersionView {
        PepVersionView { release: self.release@, stable: self.stable, text: self.text@ }
    }
}

/// What `pep440_rs::Version::from_str` makes of `text`: `None` where it reports an error.
pub uninterp spec fn pep_version(text: Seq<char>) -> Option<PepVersionView>;

/// Whether `pep440_rs` orders the version written as `a` before the one written as `b`, or
/// finds them equal. It is `false` where either text is no version.
pub uninterp spec fn pep_precedes(a: Seq<char>, b: Seq<char>) -> bool;

/// Whether the specifiers that `pep440_rs::VersionSpecifiers::from_str` reads from
/// `requirement` contain the version written as `version`. It is `false` where either text is
/// refused.
pub uninterp spec fn pep_satisfies(requirement: Seq<char>, version: Seq<char>) -> bool;

/// `pep440_rs::Version::from_str`, its result taken apart into plain values: the release
/// numbers (`release`), whether it is stable (`is_stable`) and its normal form (`to_string`).
/// The contract names what comes back and claims nothing more of it.
#[verifier::external_body]
pub(crate) fn pep_parse(text: &str) -> (r: Option<PepVersion>)
    ensures
        match r {
            Some(v) => pep_version(text@) == Some(v@),
            None => pep_version(text@) is None,
        },
{
    match pep440_rs::Version::from_str(text) {
        Ok(v) => Some(
            PepVersion { release: v.release().to_vec(), stable: v.is_stable(), text: v.to_string() },
        ),
        Err(_) => None,
    }
}

/// The order of `pep440_rs::Version` (its `Ord`), on two texts that
/// `pep440_rs::Version::from_str` reads first. Beside the name of the result the contract
/// claims that this order is total and transitive on texts that are versions, as every `Ord`
/// is.
#[verifier::external_body]
pub(crate) fn pep_le(a: &str, b: &str) -> (r: bool)
    ensures
        r == pep_precedes(a@, b@),
        pep_version(a@) is Some && pep_version(b@) is Some ==> r || pep_precedes(b@, a@),
        forall|c: Seq<char>| r && #[trigger] pep_precedes(c, a@) ==> pep_precedes(c, b@),
        forall|c: Seq<char>| r && #[trigger] pep_precedes(b@, c) ==> pep_precedes(a@, c),
{
    match (pep440_rs::Version::from_str(a), pep440_rs::Version::from_str(b)) {
        (Ok(x), Ok(y)) => x <= y,
        _ => false,
    }
}

/// `pep440_rs::VersionSpecifiers::contains`, on specifiers and a version that
/// `pep440_rs::VersionSpecifiers::from_str` and `pep440_rs::Version::from_str` read first.
#[verifier::external_body]
pub(crate) fn pep_matches(requirement: &str, version: &str) -> (r: bool)
    ensures
        r == pep_satisfies(requirement@, version@),
{
    match (
        pep440_rs::VersionSpecifiers::from_str(requirement),
        pep440_rs::Version::from_str(version),
    ) {
        (Ok(q), Ok(v)) => q.contains(&v),
        _ => false,
    }
}

/// The text of the version `major.minor.patch`.
pub open spec fn plain_text(major: u64, minor: u64, patch: u64) -> Seq<char> {
    decimal(major as nat) + seq!['.'] + decimal(minor as nat) + seq!['.'] + decimal(patch as nat)
}

impl PepVersion {
    /// The stable version `major.minor.patch`.
    pub fn new(major: u64, minor: u64, patch: u64) -> (v: PepVersion)
        ensures
            v@ == (PepVersionView {
                release: seq![major, minor, patch],
                stable: true,
                text: plain_text(major, minor, patch),
            }),
    {
        let mut release: Vec<u64> = Vec::new();
        release.push(major);
        release.push(minor);
        release.push(patch);
        assert(release@ =~= seq![major, minor, patch]);
        let mut chars: Vec<char> = Vec::new();
        push_decimal(&mut chars, major);
        chars.push('.');
        push_decimal(&mut chars, minor);
        chars.push('.');
        push_decimal(&mut chars, patch);
        assert(chars@ =~= plain_text(major, minor, patch));
        let text = string_of(&chars, 0, chars.len());
        assert(chars@.subrange(0, chars.len() as int) =~= chars@);
        PepVersion { release, stable: true, text }
    }

    fn number(&self, i: usize) -> (n: u64)
        ensures
            n == release_number(self@.release, i as int),
    {
        if i < self.release.len() {
            self.release[i]
        } else {
            0
        }
    }

    /// The first number of the release, or zero.
    pub fn major(&self) -> (n: u64)
        ensures
            n == release_number(self@.release, 0),
    {
        self.number(0)
    }

    /// The second number of the release, or zero.
    pub fn minor(&self) -> (n: u64)
        ensures
            n == release_number(self@.release, 1),
    {
        self.number(1)
    }

    /// The third number of the release, or zero.
    pub fn patch(&self) -> (n: u64)
        ensures
            n == release_number(self@.release, 2),
    {
        self.number(2)
    }

    /// Whether the version is a pre-release or a development release.
    pub fn is_prerelease(&self) -> (b: bool)
        ensures
            b == !self@.stable,
    {
        !self.stable
    }

    /// Whether the version is neither a pre-release nor a development release.
    pub fn is_stable(&self) -> (b: bool)
        ensures
            b == self@.stable,
    {
        self.stable
    }

    /// The version written out in its normal form.
    pub fn to_string(&self) -> (s: String)
        ensures
            s@ == self@.text,
    {
        self.text.clone()
    }

    /// A version equal to `self`.
    pub fn duplicate(&self) -> (v: PepVersion)
        ensures
            v@ == self@,
    {
        let mut release: Vec<u64> = Vec::new();
        let mut i: usize = 0;
        while i < self.release.len()
            invariant
                i <= self.release.len(),
                release@ == self.release@.subrange(0, i as int),
            decreases self.release.len() - i,
        {
            release.push(self.release[i]);
            i = i + 1;
            assert(self.release@.subrange(0, i as int) =~= self.release@.subrange(0, i - 1).push(
                self.release@[i - 1],
            ));
        }
        assert(self.release@.subrange(0, i as int) =~= self.release@);
        PepVersion { release, stable: self.stable, text: self.text.clone() }
    }

    /// Whether `self` and `other` agree in the first three numbers of their releases.
    pub fn same_release(&self, other: &PepVersion) -> (b: bool)
        ensures
            b == self@.same_release(other@),
    {
        self.major() == other.major() && self.minor() == other.minor() && self.patch()
            == other.patch()
    }

    /// Whether `self` comes before `other` in the order of PEP 440.
    pub fn lt(&self, other: &PepVersion) -> (b: bool)
        ensures
            b == !pep_precedes(other@.text, self@.text),
    {
        !pep_le(other.text.as_str(), self.text.as_str())
    }
}

/// The operator of a specifier.
#[derive(Debug, Clone, Copy, PartialEq, Eq)]
pub enum PepOperator {
    Equal,
    EqualStar,
    ExactEqual,
    NotEqual,
    NotEqualStar,
    TildeEqual,
    LessThan,
    LessThanEqual,
    GreaterThan,
    GreaterThanEqual,
}

/// What a [`PepSpecifier`] stands for.
pub struct PepSpecifierView {
    pub operator: PepOperator,
    pub release: Seq<u64>,
}

/// One specifier of a requirement: an operator and the release numbers of its version.
#[derive(Debug, Clone, PartialEq, Eq)]
pub struct PepSpecifier {
    pub operator: PepOperator,
    pub release: Vec<u64>,
}

impl View for PepSpecifier {
    type V = PepSpecifierView;

    open spec fn view(&self) -> PepSpecifierView {
        PepSpecifierView { operator: self.operator, release: self.release@ }
    }
}

/// What a [`PepVersionReq`] stands for.
pub struct PepVersionReqView {
    pub specifiers: Seq<PepSpecifierView>,
    pub text: Seq<char>,
}

/// A requirement of PEP 440: specifiers that a version has to meet all at once.
#[derive(Debug, Clone, PartialEq, Eq)]
pub struct PepVersionReq {
    pub specifiers: Vec<PepSpecifier>,
    /// The requirement written out in its normal form.
    pub text: String,
}

impl View for PepVersionReq {
    type V = PepVersionReqView;

    open spec fn view(&self) -> PepVersionReqView {
        PepVersionReqView {
            specifiers: Seq::new(self.specifiers@.len(), |i: int| self.specifiers@[i]@),
            text: self.text@,
        }
    }
}

/// What `pep440_rs::VersionSpecifiers::from_str` makes of `text`: `None` where it reports an
/// error.
pub uninterp spec fn pep_requirement(text: Seq<char>) -> Option<PepVersionReqView>;

/// `pep440_rs::VersionSpecifiers::from_str`, its specifiers taken apart into plain values:
/// of each its operator and the release numbers of its version, and of the whole its normal
/// form. The contract names what comes back.
#[verifier::external_body]
pub(crate) fn pep_parse_requirement(text: &str) -> (r: Option<PepVersionReq>)
    ensures
        match r {
            Some(q) => pep_requirement(text@) == Some(q@),
            None => pep_requirement(text@) is None,
        },
{
    let parsed = pep440_rs::VersionSpecifiers::from_str(text).ok()?;
    let plain = |s: &pep440_rs::VersionSpecifier| PepSpecifier {
        operator: match s.operator() {
            Operator::Equal => PepOperator::Equal, Operator::EqualStar => PepOperator::EqualStar,
            Operator::ExactEqual => PepOperator::ExactEqual, Operator::NotEqual => PepOperator::NotEqual,
            Operator::NotEqualStar => PepOperator::NotEqualStar, Operator::TildeEqual => PepOperator::TildeEqual,
            Operator::LessThan => PepOperator::LessThan, Operator::LessThanEqual => PepOperator::LessThanEqual,
            Operator::GreaterThan => PepOperator::GreaterThan, Operator::GreaterThanEqual => PepOperator::GreaterThanEqual,
        },
        release: s.version().release().to_vec(),
    };
    Some(PepVersionReq { specifiers: parsed.iter().map(plain).collect(), text: parsed.to_string() })
}

impl PepVersionReq {
    /// Whether `version` meets the requirement.
    pub fn matches(&self, version: &PepVersion) -> (b: bool)
        ensures
            b == pep_satisfies(self@.text, version@.text),
    {
        pep_matches(self.text.as_str(), version.text.as_str())
    }

    /// The requirement written out in its normal form.
    pub fn to_string(&self) -> (s: String)
        ensures
            s@ == self@.text,
    {
        self.text.clone()
    }
}

/// Whether the requirement written as `requirement` lets in the version that `raw` holds once
/// the white space around each is left out. It does not where either is refused.
pub fn satisfies(requirement: &str, raw: &str) -> (r: bool)
    ensures
        r == pep_satisfies(trimmed(requirement@), trimmed(raw@)),
{
    let wanted = trim(requirement);
    let core = trim(raw);
    pep_matches(wanted.as_str(), core.as_str())
}

/// The version that `raw` holds once the white space around it is left out, if it is one.
pub fn parse_pep_version(raw: &str) -> (r: Option<PepVersion>)
    ensures
        match r {
            Some(v) => pep_version(trimmed(raw@)) == Some(v@),
            None => pep_version(trimmed(raw@)) is None,
        },
{
    let core = trim(raw);
    pep_parse(core.as_str())
}

/// The requirement that `raw` holds once the white space around it is left out, if it is one.
pub fn parse_pep_version_req(raw: &str) -> (r: Option<PepVersionReq>)
    ensures
        match r {
            Some(q) => pep_requirement(trimmed(raw@)) == Some(q@),
            None => pep_requirement(trimmed(raw@)) is None,
        },
{
    let core = trim(raw);
    pep_parse_requirement(core.as_str())
}

} // verus!
