//! Choosing and offering versions of PEP 440.
use crate::pep_types::{
    parse_pep_version, parse_pep_version_req, pep_le, pep_matches, pep_parse, pep_precedes,
    pep_requirement, pep_satisfies, pep_version, PepVersion, PepVersionReq, PepVersionView,
};
use crate::pool;
use crate::pool::{
    choose_latest, choose_latest_filtered, offer_completions, offer_completions_filtered, view_of,
    Chosen, Offer,
};
use crate::scheme::{Assessed, Standing, VersionEntry, VersionScheme};
use crate::text::{chars_of, trimmed};
use crate::util::{bare, pep_operator_chars, trim_pep_version_specifiers};
use vstd::prelude::*;

verus! {

/// The scheme of PEP 440: versions and requirements as the `pep440_rs` crate reads them.
pub struct Pep440;

impl VersionScheme for Pep440 {
    type Version = PepVersion;

    open spec fn version_of(text: Seq<char>) -> Option<PepVersionView> {
        pep_version(text)
    }

    open spec fn precedes(a: Seq<char>, b: Seq<char>) -> bool {
        pep_precedes(a, b)
    }

    open spec fn satisfies(requirement: Seq<char>, version: Seq<char>) -> bool {
        pep_satisfies(requirement, version)
    }

    open spec fn is_prerelease(v: PepVersionView) -> bool {
        !v.stable
    }

    open spec fn same_release(v: PepVersionView, other: PepVersionView) -> bool {
        v.same_release(other)
    }

    open spec fn text_of(v: PepVersionView) -> Seq<char> {
        v.text
    }

    open spec fn bare_prefix(partial: Seq<char>) -> Seq<char> {
        bare(partial, pep_operator_chars())
    }

    proof fn lemma_same_release_reflexive(v: PepVersionView) {
    }

    fn parse(text: &str) -> (r: Option<PepVersion>) {
        pep_parse(text)
    }

    fn le(a: &str, b: &str) -> (r: bool) {
        pep_le(a, b)
    }

    fn matches(requirement: &str, version: &str) -> (r: bool) {
        pep_matches(requirement, version)
    }

    fn prerelease(v: &PepVersion) -> (r: bool) {
        v.is_prerelease()
    }

    fn same_line(v: &PepVersion, other: &PepVersion) -> (r: bool) {
        v.same_release(other)
    }

    fn duplicate(v: &PepVersion) -> (r: PepVersion) {
        v.duplicate()
    }

    fn text(v: &PepVersion) -> (r: Vec<char>) {
        chars_of(v.text.as_str())
    }

    fn strip_operators(partial: &str) -> (r: String) {
        trim_pep_version_specifiers(partial)
    }
}

/// The latest version that was found in a pool, with what holds of it next to the reference
/// version, and the item of the pool that it came from.
pub struct PepLatestVersion<T> {
    pub is_compatible: bool,
    pub is_exactly_compatible: bool,
    pub this_version: PepVersion,
    pub item_version: PepVersion,
    pub item: T,
}

/// A version that is offered for completion of a partly typed version, and the item of the
/// pool that it came from. Neither the typed text nor the offered one need be a version.
pub struct PepCompletionVersion<T> {
    pub this_version: Option<PepVersion>,
    pub this_version_raw: String,
    pub item_version: Option<PepVersion>,
    pub item_version_raw: String,
    pub item: T,
}

/// Whether `r` is the version that `raw` holds once the white space around it is left out:
/// `None` where it holds none.
pub open spec fn is_version_in(raw: Seq<char>, r: Option<PepVersion>) -> bool {
    match r {
        Some(v) => pep_version(trimmed(raw)) == Some(v@),
        None => pep_version(trimmed(raw)) is None,
    }
}

/// Whether `r` is the requirement that `raw` holds once the white space around it is left
/// out: `None` where it holds none.
pub open spec fn is_requirement_in(raw: Seq<char>, r: Option<PepVersionReq>) -> bool {
    match r {
        Some(q) => pep_requirement(trimmed(raw)) == Some(q@),
        None => pep_requirement(trimmed(raw)) is None,
    }
}

/// Anything that holds a version string.
pub trait PepVersioned {
    /// The version string.
    fn raw_version_string(&self) -> String;

    /// Whether the version is deprecated, so that it is neither chosen nor offered. It is not,
    /// where the item does not say otherwise.
    fn deprecated(&self) -> (b: bool)
        default_ensures
            !b,
    {
        false
    }

    /// The version that the version string holds, if it is one: what is read from the string
    /// that the item gives, once the white space around it is left out.
    fn parse_version(&self) -> (r: Option<PepVersion>)
        default_ensures
            exists|raw: String| #[trigger]
                call_ensures(Self::raw_version_string, (self,), raw) && is_version_in(raw@, r),
    {
        let raw = self.raw_version_string();
        parse_pep_version(raw.as_str())
    }

    /// The requirement that the version string holds, if it is one: what is read from the
    /// string that the item gives, once the white space around it is left out.
    fn parse_version_req(&self) -> (r: Option<PepVersionReq>)
        default_ensures
            exists|raw: String| #[trigger]
                call_ensures(Self::raw_version_string, (self,), raw) && is_requirement_in(raw@, r),
    {
        let raw = self.raw_version_string();
        parse_pep_version_req(raw.as_str())
    }
}

impl PepVersioned for PepVersion {
    fn raw_version_string(&self) -> (r: String)
        ensures
            r@ == self@.text,
    {
        self.to_string()
    }
}

impl PepVersioned for String {
    fn raw_version_string(&self) -> (r: String)
        ensures
            r@ == self@,
    {
        self.clone()
    }
}

impl PepVersioned for &String {
    fn raw_version_string(&self) -> (r: String)
        ensures
            r@ == self@,
    {
        (*self).clone()
    }
}

impl PepVersioned for &str {
    fn raw_version_string(&self) -> (r: String)
        ensures
            r@ == self@,
    {
        (*self).to_owned()
    }
}

impl PepVersioned for VersionEntry {
    fn raw_version_string(&self) -> (r: String)
        ensures
            r@ == self.raw@,
    {
        self.raw.clone()
    }

    fn deprecated(&self) -> (b: bool)
        ensures
            b == self.deprecated,
    {
        self.deprecated
    }
}

impl<T> Chosen<Pep440, T> for PepLatestVersion<T> {
    open spec fn chosen_item(&self) -> T {
        self.item
    }

    open spec fn reference_version(&self) -> PepVersionView {
        self.this_version@
    }

    open spec fn chosen_standing(&self) -> Standing<PepVersionView> {
        Standing {
            version: self.item_version@,
            exact: self.is_exactly_compatible,
            compatible: self.is_compatible,
        }
    }

    fn build(found: Assessed<Pep440>, item: T) -> (r: Self) {
        PepLatestVersion {
            is_compatible: found.is_compatible,
            is_exactly_compatible: found.is_exactly_compatible,
            this_version: found.this_version,
            item_version: found.version,
            item,
        }
    }
}

impl<T> Offer<Pep440, T> for PepCompletionVersion<T> {
    open spec fn offered_item(&self) -> T {
        self.item
    }

    open spec fn typed(&self) -> Seq<char> {
        self.this_version_raw@
    }

    open spec fn typed_version(&self) -> Option<PepVersionView> {
        view_of::<Pep440>(self.this_version)
    }

    open spec fn offered_raw(&self) -> Seq<char> {
        self.item_version_raw@
    }

    open spec fn offered_version(&self) -> Option<PepVersionView> {
        view_of::<Pep440>(self.item_version)
    }

    fn build(
        this_version: Option<PepVersion>,
        this_version_raw: String,
        item_version: Option<PepVersion>,
        item_version_raw: String,
        item: T,
    ) -> (r: Self) {
        PepCompletionVersion { this_version, this_version_raw, item_version, item_version_raw, item }
    }
}

/// Whether `entry` is what `item` said of itself: its version string and whether it is
/// deprecated.
pub open spec fn describes<V: PepVersioned>(item: V, entry: (Seq<char>, bool)) -> bool {
    pool::describes(V::raw_version_string, V::deprecated, item, entry)
}

/// Whether `x` records how `item`, which said `entry` of itself, stands to `reference`.
pub open spec fn records<V: PepVersioned>(
    reference: Seq<char>,
    item: V,
    entry: (Seq<char>, bool),
    x: PepLatestVersion<V>,
) -> bool {
    pool::records::<Pep440, V, PepLatestVersion<V>>(reference, item, entry, x)
}

/// Whether `verdict` is what the filter said of `item`: of the record of how it stands to
/// `reference`, where it can be chosen at all; else `false`.
pub open spec fn judges<V: PepVersioned, F: Fn(&PepLatestVersion<V>) -> bool>(
    reference: Seq<char>,
    item: V,
    entry: (Seq<char>, bool),
    filter_fn: F,
    verdict: bool,
) -> bool {
    pool::judges::<Pep440, V, PepLatestVersion<V>, F>(reference, item, entry, filter_fn, verdict)
}

/// Whether `r` is the latest version of `pool` for `reference`, where the items said `entries`
/// of themselves and the filter let through the records that `accepted` marks.
pub open spec fn selects<V: PepVersioned, F: Fn(&PepLatestVersion<V>) -> bool>(
    reference: Seq<char>,
    pool: Seq<V>,
    filter_fn: F,
    entries: Seq<(Seq<char>, bool)>,
    accepted: Seq<bool>,
    r: Option<PepLatestVersion<V>>,
) -> bool {
    pool::selects::<Pep440, V, _, _, PepLatestVersion<V>, F>(
        reference,
        pool,
        V::raw_version_string,
        V::deprecated,
        filter_fn,
        entries,
        accepted,
        r,
    )
}

/// Whether `r` is the latest version of `pool` for `reference` where nothing is filtered out:
/// the items said `entries` of themselves.
pub open spec fn selects_unfiltered<V: PepVersioned>(
    reference: Seq<char>,
    pool: Seq<V>,
    entries: Seq<(Seq<char>, bool)>,
    r: Option<PepLatestVersion<V>>,
) -> bool {
    pool::selects_unfiltered::<Pep440, V, _, _, PepLatestVersion<V>>(
        reference,
        pool,
        V::raw_version_string,
        V::deprecated,
        entries,
        r,
    )
}

/// Whether `c` offers `item`, which said `entry` of itself, after `prefix`.
pub open spec fn offers_item<V: PepVersioned>(
    prefix: Seq<char>,
    item: V,
    entry: (Seq<char>, bool),
    c: PepCompletionVersion<V>,
) -> bool {
    pool::offers_item::<Pep440, V, PepCompletionVersion<V>>(prefix, item, entry, c)
}

/// Whether `r` is what is offered for completion of `partial` from `pool`, where the items
/// said `entries` of themselves, the filter let through what `accepted` marks, and `order`
/// is the order of the offer.
pub open spec fn completes<V: PepVersioned, F: Fn(&V) -> bool>(
    partial: Seq<char>,
    pool: Seq<V>,
    filter_fn: F,
    entries: Seq<(Seq<char>, bool)>,
    accepted: Seq<bool>,
    order: Seq<usize>,
    r: Seq<PepCompletionVersion<V>>,
) -> bool {
    pool::completes::<Pep440, V, _, _, PepCompletionVersion<V>, F>(
        partial,
        pool,
        V::raw_version_string,
        V::deprecated,
        filter_fn,
        entries,
        accepted,
        order,
        r,
    )
}

/// Whether `r` is what is offered for completion of `partial` from `pool` where nothing is
/// filtered out: the items said `entries` of themselves, and `order` is the order of the offer.
pub open spec fn completes_unfiltered<V: PepVersioned>(
    partial: Seq<char>,
    pool: Seq<V>,
    entries: Seq<(Seq<char>, bool)>,
    order: Seq<usize>,
    r: Seq<PepCompletionVersion<V>>,
) -> bool {
    pool::completes_unfiltered::<Pep440, V, _, _, PepCompletionVersion<V>>(
        partial,
        pool,
        V::raw_version_string,
        V::deprecated,
        entries,
        order,
        r,
    )
}

/// The latest of the versions of `other_versions` that `filter_fn` lets through.
///
/// An item is passed over where it is deprecated, holds no version, or holds a prerelease of
/// another release than the reference's. Of what is left, the latest version is returned, and
/// of equal versions the last. The result is `None` where `reference` is no version.
pub fn extract_latest_version_filtered<V: PepVersioned, F: Fn(&PepLatestVersion<V>) -> bool>(
    reference: &str,
    other_versions: Vec<V>,
    filter_fn: F,
) -> (r: Option<PepLatestVersion<V>>)
    requires
        forall|x: &PepLatestVersion<V>| call_requires(filter_fn, (x,)),
    ensures
        pep_version(trimmed(reference@)) is None ==> r is None,
        exists|entries: Seq<(Seq<char>, bool)>, accepted: Seq<bool>| #[trigger]
            selects(reference@, other_versions@, filter_fn, entries, accepted, r),
{
    let ghost items = other_versions@;
    let r = choose_latest_filtered::<Pep440, V, _, _, PepLatestVersion<V>, F>(
        reference,
        other_versions,
        V::raw_version_string,
        V::deprecated,
        filter_fn,
    );
    proof {
        let (entries, accepted) = choose|entries: Seq<(Seq<char>, bool)>, accepted: Seq<bool>|
            pool::selects::<Pep440, V, _, _, PepLatestVersion<V>, F>(
                reference@,
                items,
                V::raw_version_string,
                V::deprecated,
                filter_fn,
                entries,
                accepted,
                r,
            );
        assert(selects(reference@, items, filter_fn, entries, accepted, r));
    }
    r
}

/// The latest of the versions of `other_versions`: [`extract_latest_version_filtered`] with a
/// filter that lets every version through.
pub fn extract_latest_version<V: PepVersioned>(reference: &str, other_versions: Vec<V>) -> (r: Option<
    PepLatestVersion<V>,
>)
    ensures
        pep_version(trimmed(reference@)) is None ==> r is None,
        exists|entries: Seq<(Seq<char>, bool)>| #[trigger]
            selects_unfiltered(reference@, other_versions@, entries, r),
{
    let ghost items = other_versions@;
    let r = choose_latest::<Pep440, V, _, _, PepLatestVersion<V>>(
        reference,
        other_versions,
        V::raw_version_string,
        V::deprecated,
    );
    proof {
        let entries = choose|entries: Seq<(Seq<char>, bool)>|
            pool::selects_unfiltered::<Pep440, V, _, _, PepLatestVersion<V>>(
                reference@,
                items,
                V::raw_version_string,
                V::deprecated,
                entries,
                r,
            );
        assert(selects_unfiltered(reference@, items, entries, r));
    }
    r
}

/// The versions of `potential_versions` that complete the partly typed `partial`, the latest
/// first.
///
/// What is typed is taken without the operators and the white space that it starts with. An
/// item is offered where it is not deprecated, its version string starts with what was typed,
/// and `filter_fn` lets it through. Two version strings are ordered as versions where both
/// are versions, else as strings.
pub fn extract_completion_versions_filtered<V: PepVersioned, F: Fn(&V) -> bool>(
    partial: &str,
    potential_versions: Vec<V>,
    filter_fn: F,
) -> (r: Vec<PepCompletionVersion<V>>)
    requires
        forall|x: &V| call_requires(filter_fn, (x,)),
    ensures
        exists|entries: Seq<(Seq<char>, bool)>, accepted: Seq<bool>, order: Seq<usize>| #[trigger]
            completes(partial@, potential_versions@, filter_fn, entries, accepted, order, r@),
{
    let ghost items = potential_versions@;
    let r = offer_completions_filtered::<Pep440, V, _, _, PepCompletionVersion<V>, F>(
        partial,
        potential_versions,
        V::raw_version_string,
        V::deprecated,
        filter_fn,
    );
    proof {
        let (entries, accepted, order) = choose|
            entries: Seq<(Seq<char>, bool)>,
            accepted: Seq<bool>,
            order: Seq<usize>,
        |
            pool::completes::<Pep440, V, _, _, PepCompletionVersion<V>, F>(
                partial@,
                items,
                V::raw_version_string,
                V::deprecated,
                filter_fn,
                entries,
                accepted,
                order,
                r@,
            );
        assert(completes(partial@, items, filter_fn, entries, accepted, order, r@));
    }
    r
}

/// The versions of `potential_versions` that complete the partly typed `partial`, the latest
/// first: [`extract_completion_versions_filtered`] with a filter that lets every version
/// through.
pub fn extract_completion_versions<V: PepVersioned>(partial: &str, potential_versions: Vec<V>) -> (r:
    Vec<PepCompletionVersion<V>>)
    ensures
        exists|entries: Seq<(Seq<char>, bool)>, order: Seq<usize>| #[trigger]
            completes_unfiltered(partial@, potential_versions@, entries, order, r@),
{
    let ghost items = potential_versions@;
    let r = offer_completions::<Pep440, V, _, _, PepCompletionVersion<V>>(
        partial,
        potential_versions,
        V::raw_version_string,
        V::deprecated,
    );
    proof {
        let (entries, order) = choose|entries: Seq<(Seq<char>, bool)>, order: Seq<usize>|
            pool::completes_unfiltered::<Pep440, V, _, _, PepCompletionVersion<V>>(
                partial@,
                items,
                V::raw_version_string,
                V::deprecated,
                entries,
                order,
                r@,
            );
        assert(completes_unfiltered(partial@, items, entries, order, r@));
    }
    r
}

/// The winner wins again. Where `w` is the latest version of `items` for `reference`, and its
/// item says the same of itself whenever it is asked, the latest version of a pool that holds
/// nothing but that item is the same version of the same item, and it stands to the
/// reference as before.
pub proof fn lemma_latest_version_wins_again<V: PepVersioned>(
    reference: Seq<char>,
    items: Seq<V>,
    entries: Seq<(Seq<char>, bool)>,
    w: PepLatestVersion<V>,
    entries_again: Seq<(Seq<char>, bool)>,
    again: Option<PepLatestVersion<V>>,
)
    requires
        selects_unfiltered(reference, items, entries, Some(w)),
        pool::answers_steadily(V::raw_version_string, V::deprecated, w.item),
        selects_unfiltered(reference, seq![w.item], entries_again, again),
    ensures
        again matches Some(w2) && w2.item == w.item && w2.item_version@ == w.item_version@
            && w2.this_version@ == w.this_version@ && w2.is_exactly_compatible
            == w.is_exactly_compatible && w2.is_compatible == w.is_compatible,
{
    pool::lemma_winner_wins_again::<Pep440, V, _, _, PepLatestVersion<V>>(
        reference,
        items,
        V::raw_version_string,
        V::deprecated,
        entries,
        w,
        entries_again,
        again,
    );
}

/// The winner wins again with its version as the reference. Where `w` is the latest version
/// of `items` for some reference, its item says the same of itself whenever it is asked, and
/// `text` reads as the version that was chosen, the latest version that a pool of that item
/// alone holds for `text` is the same version of the same item, and it is compatible with
/// the reference, exactly.
pub proof fn lemma_latest_version_as_reference_wins_again<V: PepVersioned>(
    reference: Seq<char>,
    items: Seq<V>,
    entries: Seq<(Seq<char>, bool)>,
    w: PepLatestVersion<V>,
    text: Seq<char>,
    entries_again: Seq<(Seq<char>, bool)>,
    again: Option<PepLatestVersion<V>>,
)
    requires
        selects_unfiltered(reference, items, entries, Some(w)),
        pool::answers_steadily(V::raw_version_string, V::deprecated, w.item),
        pep_version(trimmed(text)) == Some(w.item_version@),
        selects_unfiltered(text, seq![w.item], entries_again, again),
    ensures
        again matches Some(w2) && w2.item == w.item && w2.item_version@ == w.item_version@
            && w2.this_version@ == w.item_version@ && w2.is_exactly_compatible
            && w2.is_compatible,
{
    pool::lemma_winner_as_reference_wins_again::<Pep440, V, _, _, PepLatestVersion<V>>(
        reference,
        items,
        V::raw_version_string,
        V::deprecated,
        entries,
        w,
        text,
        entries_again,
        again,
    );
}

/// An entry of a pool says the same of itself whenever it is asked.
pub proof fn lemma_entry_answers_steadily(e: VersionEntry)
    ensures
        pool::answers_steadily(
            <VersionEntry as PepVersioned>::raw_version_string,
            <VersionEntry as PepVersioned>::deprecated,
            e,
        ),
{
}

/// For a pool of entries the winner wins again, whatever the pool: an entry says of itself
/// what it holds.
pub proof fn lemma_latest_entry_wins_again(
    reference: Seq<char>,
    items: Seq<VersionEntry>,
    entries: Seq<(Seq<char>, bool)>,
    w: PepLatestVersion<VersionEntry>,
    entries_again: Seq<(Seq<char>, bool)>,
    again: Option<PepLatestVersion<VersionEntry>>,
)
    requires
        selects_unfiltered(reference, items, entries, Some(w)),
        selects_unfiltered(reference, seq![w.item], entries_again, again),
    ensures
        again matches Some(w2) && w2.item == w.item && w2.item_version@ == w.item_version@
            && w2.this_version@ == w.this_version@ && w2.is_exactly_compatible
            == w.is_exactly_compatible && w2.is_compatible == w.is_compatible,
{
    lemma_entry_answers_steadily(w.item);
    lemma_latest_version_wins_again(reference, items, entries, w, entries_again, again);
}

} // verus!
