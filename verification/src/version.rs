//! Versions of the first scheme: three numbers, an optional prerelease and optional build
//! metadata, parsed and ordered by the `semver` crate.
use crate::pool::{
    choose_latest, choose_latest_filtered, offer_completions, offer_completions_filtered, view_of,
    Chosen, Offer,
};
use crate::scheme::{Assessed, Standing, VersionEntry, VersionScheme};
use crate::text::{chars_of, decimal, push_decimal, string_of, trim, trim_bounds, trimmed};
use crate::util::{bare, semver_operator_chars, trim_semver_version_specifiers};
use crate::version_req::{parse_version_req, semver_requirement, VersionReq};
use crate::pool;
use vstd::prelude::*;

verus! {

/// What a [`Version`] stands for.
pub struct VersionView {
    pub major: u64,
    pub minor: u64,
    pub patch: u64,
    pub pre: Seq<char>,
    pub build: Seq<char>,
}

impl VersionView {
    /// The version written out: the three numbers with dots between them, then `-` and the
    /// prerelease where there is one, then `+` and the build metadata where there is any.
    pub open spec fn text(self) -> Seq<char> {
        decimal(self.major as nat) + seq!['.'] + decimal(self.minor as nat) + seq!['.'] + decimal(
            self.patch as nat,
        ) + (if self.pre.len() > 0 {
            seq!['-'] + self.pre
        } else {
            Seq::empty()
        }) + (if self.build.len() > 0 {
            seq!['+'] + self.build
        } else {
            Seq::empty()
        })
    }

    /// Whether the version carries a prerelease.
    pub open spec fn is_prerelease(self) -> bool {
        trimmed(self.pre).len() > 0
    }

    /// Whether `self` and `other` agree in their three numbers.
    pub open spec fn same_release(self, other: VersionView) -> bool {
        self.major == other.major && self.minor == other.minor && self.patch == other.patch
    }
}

/// A version: the plain values that the `semver` crate reads out of a version string.
#[derive(Debug, Clone, PartialEq, Eq)]
pub struct Version {
    pub major: u64,
    pub minor: u64,
    pub patch: u64,
    /// The prerelease identifiers, without the leading `-`; empty where there are none.
    pub pre: String,
    /// The build metadata, without the leading `+`; empty where there is none.
    pub build: String,
}

impl View for Version {
    type V = VersionView;

    open spec fn view(&self) -> VersionView {
        VersionView {
            major: self.major,
            minor: self.minor,
            patch: self.patch,
            pre: self.pre@,
            build: self.build@,
        }
    }
}

/// What `semver::Version::parse` makes of `text`: `None` where it reports an error.
pub uninterp spec fn semver_version(text: Seq<char>) -> Option<VersionView>;

/// Whether `semver` orders the version written as `a` before the one written as `b`, or finds
/// them equal. It is `false` where either text is no version.
pub uninterp spec fn semver_precedes(a: Seq<char>, b: Seq<char>) -> bool;

/// Whether `requirement`, read by `semver::VersionReq::parse`, matches the version written as
/// `version`. It is `false` where either text is refused.
pub uninterp spec fn semver_satisfies(requirement: Seq<char>, version: Seq<char>) -> bool;

/// `semver::Version::parse`, its result taken apart into plain values. The contract names what
/// comes back and claims nothing more of it.
#[verifier::external_body]
pub(crate) fn semver_parse(text: &str) -> (r: Option<Version>)
    ensures
        match r {
            Some(v) => semver_version(text@) == Some(v@),
            None => semver_version(text@) is None,
        },
{
    match semver::Version::parse(text) {
        Ok(v) => Some(
            Version {
                major: v.major,
                minor: v.minor,
                patch: v.patch,
                pre: v.pre.as_str().to_string(),
                build: v.build.as_str().to_string(),
            },
        ),
        Err(_) => None,
    }
}

/// The order of `semver::Version` (its `Ord`), on two strings that `semver::Version::parse`
/// reads first. Beside the name of the result the contract claims that this order is total
/// and transitive on strings that are versions, as every `Ord` is.
#[verifier::external_body]
fn semver_le(a: &str, b: &str) -> (r: bool)
    ensures
        r == semver_precedes(a@, b@),
        semver_version(a@) is Some && semver_version(b@) is Some ==> r || semver_precedes(
            b@,
            a@,
        ),
        forall|c: Seq<char>|
            r && #[trigger] semver_precedes(c, a@) ==> semver_precedes(c, b@),
        forall|c: Seq<char>| r && #[trigger] semver_precedes(b@, c) ==> semver_precedes(a@, c),
{
    match (semver::Version::parse(a), semver::Version::parse(b)) {
        (Ok(x), Ok(y)) => x <= y,
        _ => false,
    }
}

/// `semver::VersionReq::matches`, on a requirement and a version that
/// `semver::VersionReq::parse` and `semver::Version::parse` read first.
#[verifier::external_body]
fn semver_matches(requirement: &str, version: &str) -> (r: bool)
    ensures
        r == semver_satisfies(requirement@, version@),
{
    match (semver::VersionReq::parse(requirement), semver::Version::parse(version)) {
        (Ok(q), Ok(v)) => q.matches(&v),
        _ => false,
    }
}

impl Version {
    /// The version `major.minor.patch`, with no prerelease and no build metadata.
    pub fn new(major: u64, minor: u64, patch: u64) -> (v: Version)
        ensures
            v@ == (VersionView { major, minor, patch, pre: Seq::empty(), build: Seq::empty() }),
    {
        Version { major, minor, patch, pre: String::new(), build: String::new() }
    }

    /// The version written out, as `semver` displays it.
    pub fn to_string(&self) -> (s: String)
        ensures
            s@ == self@.text(),
    {
        let v = self.to_chars();
        let s = string_of(&v, 0, v.len());
        assert(v@.subrange(0, v.len() as int) =~= v@);
        s
    }

    /// The characters of [`Version::to_string`].
    pub fn to_chars(&self) -> (v: Vec<char>)
        ensures
            v@ == self@.text(),
    {
        let mut v: Vec<char> = Vec::new();
        push_decimal(&mut v, self.major);
        v.push('.');
        push_decimal(&mut v, self.minor);
        v.push('.');
        push_decimal(&mut v, self.patch);
        let ghost head = v@;
        assert(head =~= decimal(self.major as nat) + seq!['.'] + decimal(self.minor as nat)
            + seq!['.'] + decimal(self.patch as nat));
        let pre = chars_of(self.pre.as_str());
        if pre.len() > 0 {
            v.push('-');
            let mut i: usize = 0;
            while i < pre.len()
                invariant
                    i <= pre.len(),
                    v@ == head + seq!['-'] + pre@.subrange(0, i as int),
                decreases pre.len() - i,
            {
                v.push(pre[i]);
                i = i + 1;
                assert(pre@.subrange(0, i as int) =~= pre@.subrange(0, i - 1).push(pre@[i - 1]));
            }
            assert(pre@.subrange(0, pre.len() as int) =~= pre@);
            assert(head + seq!['-'] + pre@ =~= head + (seq!['-'] + pre@));
        } else {
            assert(v@ =~= head + Seq::<char>::empty());
        }
        let ghost mid = v@;
        let build = chars_of(self.build.as_str());
        if build.len() > 0 {
            v.push('+');
            let mut i: usize = 0;
            while i < build.len()
                invariant
                    i <= build.len(),
                    v@ == mid + seq!['+'] + build@.subrange(0, i as int),
                decreases build.len() - i,
            {
                v.push(build[i]);
                i = i + 1;
                assert(build@.subrange(0, i as int) =~= build@.subrange(0, i - 1).push(
                    build@[i - 1],
                ));
            }
            assert(build@.subrange(0, build.len() as int) =~= build@);
            assert(mid + seq!['+'] + build@ =~= mid + (seq!['+'] + build@));
        } else {
            assert(v@ =~= mid + Seq::<char>::empty());
        }
        v
    }

    /// Whether the version carries a prerelease.
    pub fn is_prerelease(&self) -> (b: bool)
        ensures
            b == self@.is_prerelease(),
    {
        let pre = chars_of(self.pre.as_str());
        let (a, e) = trim_bounds(&pre, 0, pre.len());
        assert(pre@.subrange(0, pre.len() as int) =~= pre@);
        a < e
    }

    /// A version equal to `self`.
    pub fn duplicate(&self) -> (v: Version)
        ensures
            v@ == self@,
    {
        Version {
            major: self.major,
            minor: self.minor,
            patch: self.patch,
            pre: self.pre.clone(),
            build: self.build.clone(),
        }
    }

    /// Whether `self` and `other` agree in their three numbers.
    pub fn same_release(&self, other: &Version) -> (b: bool)
        ensures
            b == self@.same_release(other@),
    {
        self.major == other.major && self.minor == other.minor && self.patch == other.patch
    }
}

/// Whether the requirement written as `requirement` lets in the version that `raw` holds once
/// the white space around it is left out. It does not where either is refused.
pub fn satisfies(requirement: &str, raw: &str) -> (r: bool)
    ensures
        r == semver_satisfies(requirement@, trimmed(raw@)),
{
    let core = trim(raw);
    semver_matches(requirement, core.as_str())
}

/// The version that `raw` holds once the white space around it is left out, if it is one.
pub fn parse_version(raw: &str) -> (r: Option<Version>)
    ensures
        match r {
            Some(v) => semver_version(trimmed(raw@)) == Some(v@),
            None => semver_version(trimmed(raw@)) is None,
        },
{
    let core = trim(raw);
    semver_parse(core.as_str())
}

/// The first scheme: versions and requirements as the `semver` crate reads them.
pub struct Semver;

impl VersionScheme for Semver {
    type Version = Version;

    open spec fn version_of(text: Seq<char>) -> Option<VersionView> {
        semver_version(text)
    }

    open spec fn precedes(a: Seq<char>, b: Seq<char>) -> bool {
        semver_precedes(a, b)
    }

    open spec fn satisfies(requirement: Seq<char>, version: Seq<char>) -> bool {
        semver_satisfies(requirement, version)
    }

    open spec fn is_prerelease(v: VersionView) -> bool {
        v.is_prerelease()
    }

    open spec fn same_release(v: VersionView, other: VersionView) -> bool {
        v.same_release(other)
    }

    open spec fn text_of(v: VersionView) -> Seq<char> {
        v.text()
    }

    open spec fn bare_prefix(partial: Seq<char>) -> Seq<char> {
        bare(partial, semver_operator_chars())
    }

    proof fn lemma_same_release_reflexive(v: VersionView) {
    }

    fn parse(text: &str) -> (r: Option<Version>) {
        semver_parse(text)
    }

    fn le(a: &str, b: &str) -> (r: bool) {
        semver_le(a, b)
    }

    fn matches(requirement: &str, version: &str) -> (r: bool) {
        semver_matches(requirement, version)
    }

    fn prerelease(v: &Version) -> (r: bool) {
        v.is_prerelease()
    }

    fn same_line(v: &Version, other: &Version) -> (r: bool) {
        v.same_release(other)
    }

    fn duplicate(v: &Version) -> (r: Version) {
        v.duplicate()
    }

    fn text(v: &Version) -> (r: Vec<char>) {
        v.to_chars()
    }

    fn strip_operators(partial: &str) -> (r: String) {
        trim_semver_version_specifiers(partial)
    }
}

/// The latest version that was found in a pool, with what holds of it next to the reference
/// version, and the item of the pool that it came from.
pub struct LatestVersion<T> {
    pub is_semver_compatible: bool,
    pub is_exactly_compatible: bool,
    pub this_version: Version,
    pub item_version: Version,
    pub item: T,
}

/// A version that is offered for completion of a partly typed version, and the item of the
/// pool that it came from. Neither the typed text nor the offered one need be a version.
pub struct CompletionVersion<T> {
    pub this_version: Option<Version>,
    pub this_version_raw: String,
    pub item_version: Option<Version>,
    pub item_version_raw: String,
    pub item: T,
}

/// Whether `r` is the version that `raw` holds once the white space around it is left out:
/// `None` where it holds none.
pub open spec fn is_version_in(raw: Seq<char>, r: Option<Version>) -> bool {
    match r {
        Some(v) => semver_version(trimmed(raw)) == Some(v@),
        None => semver_version(trimmed(raw)) is None,
    }
}

/// Whether `r` is the requirement that `raw` holds once the white space around it is left
/// out: `None` where it holds none.
pub open spec fn is_requirement_in(raw: Seq<char>, r: Option<VersionReq>) -> bool {
    match r {
        Some(q) => semver_requirement(trimmed(raw)) == Some(q.comparators@),
        None => semver_requirement(trimmed(raw)) is None,
    }
}

/// Anything that holds a version string.
pub trait Versioned {
    /// The version string.
    fn raw_version_string(&self) -> String;

    /// Whether the version is deprecated, so that it is neither chosen nor offered. It is not,
    /// where the item does not say otherwise.
    fn deprecated(&self) -> (b: bool)
        default_ensures
            !b,
    {
        false
    }

    /// The version that the version string holds, if it is one: what is read from the string
    /// that the item gives, once the white space around it is left out.
    fn parse_version(&self) -> (r: Option<Version>)
        default_ensures
            exists|raw: String| #[trigger]
                call_ensures(Self::raw_version_string, (self,), raw) && is_version_in(raw@, r),
    {
        let raw = self.raw_version_string();
        parse_version(raw.as_str())
    }

    /// The requirement that the version string holds, if it is one: what is read from the
    /// string that the item gives, once the white space around it is left out.
    fn parse_version_req(&self) -> (r: Option<VersionReq>)
        default_ensures
            exists|raw: String| #[trigger]
                call_ensures(Self::raw_version_string, (self,), raw) && is_requirement_in(raw@, r),
    {
        let raw = self.raw_version_string();
        parse_version_req(raw.as_str())
    }
}

impl Versioned for Version {
    fn raw_version_string(&self) -> (r: String)
        ensures
            r@ == self@.text(),
    {
        self.to_string()
    }
}

impl Versioned for String {
    fn raw_version_string(&self) -> (r: String)
        ensures
            r@ == self@,
    {
        self.clone()
    }
}

impl Versioned for &String {
    fn raw_version_string(&self) -> (r: String)
        ensures
            r@ == self@,
    {
        (*self).clone()
    }
}

impl Versioned for &str {
    fn raw_version_string(&self) -> (r: String)
        ensures
            r@ == self@,
    {
        (*self).to_owned()
    }
}

impl Versioned for VersionEntry {
    fn raw_version_string(&self) -> (r: String)
        ensures
            r@ == self.raw@,
    {
        self.raw.clone()
    }

    fn deprecated(&self) -> (b: bool)
        ensures
            b == self.deprecated,
    {
        self.deprecated
    }
}

impl<T> Chosen<Semver, T> for LatestVersion<T> {
    open spec fn chosen_item(&self) -> T {
        self.item
    }

    open spec fn reference_version(&self) -> VersionView {
        self.this_version@
    }

    open spec fn chosen_standing(&self) -> Standing<VersionView> {
        Standing {
            version: self.item_version@,
            exact: self.is_exactly_compatible,
            compatible: self.is_semver_compatible,
        }
    }

    fn build(found: Assessed<Semver>, item: T) -> (r: Self) {
        LatestVersion {
            is_semver_compatible: found.is_compatible,
            is_exactly_compatible: found.is_exactly_compatible,
            this_version: found.this_version,
            item_version: found.version,
            item,
        }
    }
}

impl<T> Offer<Semver, T> for CompletionVersion<T> {
    open spec fn offered_item(&self) -> T {
        self.item
    }

    open spec fn typed(&self) -> Seq<char> {
        self.this_version_raw@
    }

    open spec fn typed_version(&self) -> Option<VersionView> {
        view_of::<Semver>(self.this_version)
    }

    open spec fn offered_raw(&self) -> Seq<char> {
        self.item_version_raw@
    }

    open spec fn offered_version(&self) -> Option<VersionView> {
        view_of::<Semver>(self.item_version)
    }

    fn build(
        this_version: Option<Version>,
        this_version_raw: String,
        item_version: Option<Version>,
        item_version_raw: String,
        item: T,
    ) -> (r: Self) {
        CompletionVersion { this_version, this_version_raw, item_version, item_version_raw, item }
    }
}

/// Whether `entry` is what `item` said of itself: its version string and whether it is
/// deprecated.
pub open spec fn describes<V: Versioned>(item: V, entry: (Seq<char>, bool)) -> bool {
    pool::describes(V::raw_version_string, V::deprecated, item, entry)
}

/// Whether `x` records how `item`, which said `entry` of itself, stands to `reference`.
pub open spec fn records<V: Versioned>(
    reference: Seq<char>,
    item: V,
    entry: (Seq<char>, bool),
    x: LatestVersion<V>,
) -> bool {
    pool::records::<Semver, V, LatestVersion<V>>(reference, item, entry, x)
}

/// Whether `verdict` is what the filter said of `item`: of the record of how it stands to
/// `reference`, where it can be chosen at all; else `false`.
pub open spec fn judges<V: Versioned, F: Fn(&LatestVersion<V>) -> bool>(
    reference: Seq<char>,
    item: V,
    entry: (Seq<char>, bool),
    filter_fn: F,
    verdict: bool,
) -> bool {
    pool::judges::<Semver, V, LatestVersion<V>, F>(reference, item, entry, filter_fn, verdict)
}

/// Whether `r` is the latest version of `pool` for `reference`, where the items said `entries`
/// of themselves and the filter let through the records that `accepted` marks.
pub open spec fn selects<V: Versioned, F: Fn(&LatestVersion<V>) -> bool>(
    reference: Seq<char>,
    pool: Seq<V>,
    filter_fn: F,
    entries: Seq<(Seq<char>, bool)>,
    accepted: Seq<bool>,
    r: Option<LatestVersion<V>>,
) -> bool {
    pool::selects::<Semver, V, _, _, LatestVersion<V>, F>(
        reference,
        pool,
        V::raw_version_string,
        V::deprecated,
        filter_fn,
        entries,
        accepted,
        r,
    )
}

/// Whether `r` is the latest version of `pool` for `reference` where nothing is filtered out:
/// the items said `entries` of themselves.
pub open spec fn selects_unfiltered<V: Versioned>(
    reference: Seq<char>,
    pool: Seq<V>,
    entries: Seq<(Seq<char>, bool)>,
    r: Option<LatestVersion<V>>,
) -> bool {
    pool::selects_unfiltered::<Semver, V, _, _, LatestVersion<V>>(
        reference,
        pool,
        V::raw_version_string,
        V::deprecated,
        entries,
        r,
    )
}

/// Whether `c` offers `item`, which said `entry` of itself, after `prefix`.
pub open spec fn offers_item<V: Versioned>(
    prefix: Seq<char>,
    item: V,
    entry: (Seq<char>, bool),
    c: CompletionVersion<V>,
) -> bool {
    pool::offers_item::<Semver, V, CompletionVersion<V>>(prefix, item, entry, c)
}

/// Whether `r` is what is offered for completion of `partial` from `pool`, where the items
/// said `entries` of themselves, the filter let through what `accepted` marks, and `order`
/// is the order of the offer.
pub open spec fn completes<V: Versioned, F: Fn(&V) -> bool>(
    partial: Seq<char>,
    pool: Seq<V>,
    filter_fn: F,
    entries: Seq<(Seq<char>, bool)>,
    accepted: Seq<bool>,
    order: Seq<usize>,
    r: Seq<CompletionVersion<V>>,
) -> bool {
    pool::completes::<Semver, V, _, _, CompletionVersion<V>, F>(
        partial,
        pool,
        V::raw_version_string,
        V::deprecated,
        filter_fn,
        entries,
        accepted,
        order,
        r,
    )
}

/// Whether `r` is what is offered for completion of `partial` from `pool` where nothing is
/// filtered out: the items said `entries` of themselves, and `order` is the order of the offer.
pub open spec fn completes_unfiltered<V: Versioned>(
    partial: Seq<char>,
    pool: Seq<V>,
    entries: Seq<(Seq<char>, bool)>,
    order: Seq<usize>,
    r: Seq<CompletionVersion<V>>,
) -> bool {
    pool::completes_unfiltered::<Semver, V, _, _, CompletionVersion<V>>(
        partial,
        pool,
        V::raw_version_string,
        V::deprecated,
        entries,
        order,
        r,
    )
}

/// The latest of the versions of `other_versions` that `filter_fn` lets through.
///
/// An item is passed over where it is deprecated, holds no version, or holds a prerelease of
/// another release than the reference's. Of what is left, the latest version is returned, and
/// of equal versions the last. The result is `None` where `reference` is no version.
pub fn extract_latest_version_filtered<V: Versioned, F: Fn(&LatestVersion<V>) -> bool>(
    reference: &str,
    other_versions: Vec<V>,
    filter_fn: F,
) -> (r: Option<LatestVersion<V>>)
    requires
        forall|x: &LatestVersion<V>| call_requires(filter_fn, (x,)),
    ensures
        semver_version(trimmed(reference@)) is None ==> r is None,
        exists|entries: Seq<(Seq<char>, bool)>, accepted: Seq<bool>| #[trigger]
            selects(reference@, other_versions@, filter_fn, entries, accepted, r),
{
    let ghost items = other_versions@;
    let r = choose_latest_filtered::<Semver, V, _, _, LatestVersion<V>, F>(
        reference,
        other_versions,
        V::raw_version_string,
        V::deprecated,
        filter_fn,
    );
    proof {
        let (entries, accepted) = choose|entries: Seq<(Seq<char>, bool)>, accepted: Seq<bool>|
            pool::selects::<Semver, V, _, _, LatestVersion<V>, F>(
                reference@,
                items,
                V::raw_version_string,
                V::deprecated,
                filter_fn,
                entries,
                accepted,
                r,
            );
        assert(selects(reference@, items, filter_fn, entries, accepted, r));
    }
    r
}

/// The latest of the versions of `other_versions`: [`extract_latest_version_filtered`] with a
/// filter that lets every version through.
pub fn extract_latest_version<V: Versioned>(reference: &str, other_versions: Vec<V>) -> (r: Option<
    LatestVersion<V>,
>)
    ensures
        semver_version(trimmed(reference@)) is None ==> r is None,
        exists|entries: Seq<(Seq<char>, bool)>| #[trigger]
            selects_unfiltered(reference@, other_versions@, entries, r),
{
    let ghost items = other_versions@;
    let r = choose_latest::<Semver, V, _, _, LatestVersion<V>>(
        reference,
        other_versions,
        V::raw_version_string,
        V::deprecated,
    );
    proof {
        let entries = choose|entries: Seq<(Seq<char>, bool)>|
            pool::selects_unfiltered::<Semver, V, _, _, LatestVersion<V>>(
                reference@,
                items,
                V::raw_version_string,
                V::deprecated,
                entries,
                r,
            );
        assert(selects_unfiltered(reference@, items, entries, r));
    }
    r
}

/// The versions of `potential_versions` that complete the partly typed `partial`, the latest
/// first.
///
/// What is typed is taken without the operators and the white space that it starts with. An
/// item is offered where it is not deprecated, its version string starts with what was typed,
/// and `filter_fn` lets it through. Two version strings are ordered as versions where both
/// are versions, else as strings.
pub fn extract_completion_versions_filtered<V: Versioned, F: Fn(&V) -> bool>(
    partial: &str,
    potential_versions: Vec<V>,
    filter_fn: F,
) -> (r: Vec<CompletionVersion<V>>)
    requires
        forall|x: &V| call_requires(filter_fn, (x,)),
    ensures
        exists|entries: Seq<(Seq<char>, bool)>, accepted: Seq<bool>, order: Seq<usize>| #[trigger]
            completes(partial@, potential_versions@, filter_fn, entries, accepted, order, r@),
{
    let ghost items = potential_versions@;
    let r = offer_completions_filtered::<Semver, V, _, _, CompletionVersion<V>, F>(
        partial,
        potential_versions,
        V::raw_version_string,
        V::deprecated,
        filter_fn,
    );
    proof {
        let (entries, accepted, order) = choose|
            entries: Seq<(Seq<char>, bool)>,
            accepted: Seq<bool>,
            order: Seq<usize>,
        |
            pool::completes::<Semver, V, _, _, CompletionVersion<V>, F>(
                partial@,
                items,
                V::raw_version_string,
                V::deprecated,
                filter_fn,
                entries,
                accepted,
                order,
                r@,
            );
        assert(completes(partial@, items, filter_fn, entries, accepted, order, r@));
    }
    r
}

/// The versions of `potential_versions` that complete the partly typed `partial`, the latest
/// first: [`extract_completion_versions_filtered`] with a filter that lets every version
/// through.
pub fn extract_completion_versions<V: Versioned>(partial: &str, potential_versions: Vec<V>) -> (r:
    Vec<CompletionVersion<V>>)
    ensures
        exists|entries: Seq<(Seq<char>, bool)>, order: Seq<usize>| #[trigger]
            completes_unfiltered(partial@, potential_versions@, entries, order, r@),
{
    let ghost items = potential_versions@;
    let r = offer_completions::<Semver, V, _, _, CompletionVersion<V>>(
        partial,
        potential_versions,
        V::raw_version_string,
        V::deprecated,
    );
    proof {
        let (entries, order) = choose|entries: Seq<(Seq<char>, bool)>, order: Seq<usize>|
            pool::completes_unfiltered::<Semver, V, _, _, CompletionVersion<V>>(
                partial@,
                items,
                V::raw_version_string,
                V::deprecated,
                entries,
                order,
                r@,
            );
        assert(completes_unfiltered(partial@, items, entries, order, r@));
    }
    r
}

/// The winner wins again. Where `w` is the latest version of `items` for `reference`, and its
/// item says the same of itself whenever it is asked, the latest version of a pool that holds
/// nothing but that item is the same version of the same item, and it stands to the
/// reference as before.
pub proof fn lemma_latest_version_wins_again<V: Versioned>(
    reference: Seq<char>,
    items: Seq<V>,
    entries: Seq<(Seq<char>, bool)>,
    w: LatestVersion<V>,
    entries_again: Seq<(Seq<char>, bool)>,
    again: Option<LatestVersion<V>>,
)
    requires
        selects_unfiltered(reference, items, entries, Some(w)),
        pool::answers_steadily(V::raw_version_string, V::deprecated, w.item),
        selects_unfiltered(reference, seq![w.item], entries_again, again),
    ensures
        again matches Some(w2) && w2.item == w.item && w2.item_version@ == w.item_version@
            && w2.this_version@ == w.this_version@ && w2.is_exactly_compatible
            == w.is_exactly_compatible && w2.is_semver_compatible == w.is_semver_compatible,
{
    pool::lemma_winner_wins_again::<Semver, V, _, _, LatestVersion<V>>(
        reference,
        items,
        V::raw_version_string,
        V::deprecated,
        entries,
        w,
        entries_again,
        again,
    );
}

/// The winner wins again with its version as the reference. Where `w` is the latest version
/// of `items` for some reference, its item says the same of itself whenever it is asked, and
/// `text` reads as the version that was chosen, the latest version that a pool of that item
/// alone holds for `text` is the same version of the same item, and it is compatible with
/// the reference, exactly.
pub proof fn lemma_latest_version_as_reference_wins_again<V: Versioned>(
    reference: Seq<char>,
    items: Seq<V>,
    entries: Seq<(Seq<char>, bool)>,
    w: LatestVersion<V>,
    text: Seq<char>,
    entries_again: Seq<(Seq<char>, bool)>,
    again: Option<LatestVersion<V>>,
)
    requires
        selects_unfiltered(reference, items, entries, Some(w)),
        pool::answers_steadily(V::raw_version_string, V::deprecated, w.item),
        semver_version(trimmed(text)) == Some(w.item_version@),
        selects_unfiltered(text, seq![w.item], entries_again, again),
    ensures
        again matches Some(w2) && w2.item == w.item && w2.item_version@ == w.item_version@
            && w2.this_version@ == w.item_version@ && w2.is_exactly_compatible
            && w2.is_semver_compatible,
{
    pool::lemma_winner_as_reference_wins_again::<Semver, V, _, _, LatestVersion<V>>(
        reference,
        items,
        V::raw_version_string,
        V::deprecated,
        entries,
        w,
        text,
        entries_again,
        again,
    );
}

/// An entry of a pool says the same of itself whenever it is asked.
pub proof fn lemma_entry_answers_steadily(e: VersionEntry)
    ensures
        pool::answers_steadily(
            <VersionEntry as Versioned>::raw_version_string,
            <VersionEntry as Versioned>::deprecated,
            e,
        ),
{
}

/// For a pool of entries the winner wins again, whatever the pool: an entry says of itself
/// what it holds.
pub proof fn lemma_latest_entry_wins_again(
    reference: Seq<char>,
    items: Seq<VersionEntry>,
    entries: Seq<(Seq<char>, bool)>,
    w: LatestVersion<VersionEntry>,
    entries_again: Seq<(Seq<char>, bool)>,
    again: Option<LatestVersion<VersionEntry>>,
)
    requires
        selects_unfiltered(reference, items, entries, Some(w)),
        selects_unfiltered(reference, seq![w.item], entries_again, again),
    ensures
        again matches Some(w2) && w2.item == w.item && w2.item_version@ == w.item_version@
            && w2.this_version@ == w.this_version@ && w2.is_exactly_compatible
            == w.is_exactly_compatible && w2.is_semver_compatible == w.is_semver_compatible,
{
    lemma_entry_answers_steadily(w.item);
    lemma_latest_version_wins_again(reference, items, entries, w, entries_again, again);
}

} // verus!
