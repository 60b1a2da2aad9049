//! The selection of versions, written once for every versioning scheme.
//!
//! A scheme says which strings are versions, how versions are ordered and which versions a
//! requirement lets in. What is chosen from a pool of version strings, and in which order the
//! strings are offered for completion, is decided here.
use crate::text::{
    chars_of, eq_ignore_ascii_case, equal_ignoring_ascii_case, lemma_lex_total,
    lemma_lex_transitive, lex_le, lexicographic_le, starts_with, texts, trim, trimmed,
};
use vstd::prelude::*;

verus! {

/// A versioning scheme.
///
/// Versions and requirements are handed to the scheme as text. Of the order the scheme
/// promises what every total order has: on two versions one of the two precedes the other, and
/// what precedes one version precedes every version after it.
pub trait VersionScheme {
    /// A parsed version.
    type Version: View;

    /// The version that `text` stands for, if it is one.
    spec fn version_of(text: Seq<char>) -> Option<<Self::Version as View>::V>;

    /// Whether the version written as `a` comes before the one written as `b` or equals it.
    spec fn precedes(a: Seq<char>, b: Seq<char>) -> bool;

    /// Whether the requirement written as `requirement` lets the version written as `version`
    /// in. It does not where `requirement` is no requirement.
    spec fn satisfies(requirement: Seq<char>, version: Seq<char>) -> bool;

    /// Whether `v` is a prerelease.
    spec fn is_prerelease(v: <Self::Version as View>::V) -> bool;

    /// Whether `v` and `other` belong to one release: their first three numbers agree.
    spec fn same_release(v: <Self::Version as View>::V, other: <Self::Version as View>::V) -> bool;

    /// `v` written out.
    spec fn text_of(v: <Self::Version as View>::V) -> Seq<char>;

    /// What is left of a partly typed requirement once white space and the characters of
    /// operators are taken from its start.
    spec fn bare_prefix(partial: Seq<char>) -> Seq<char>;

    /// A version belongs to its own release.
    proof fn lemma_same_release_reflexive(v: <Self::Version as View>::V)
        ensures
            Self::same_release(v, v),
    ;

    /// Reads a version.
    fn parse(text: &str) -> (r: Option<Self::Version>)
        ensures
            match r {
                Some(v) => Self::version_of(text@) == Some(v@),
                None => Self::version_of(text@) is None,
            },
    ;

    /// Compares two versions that are given as text. Of two texts that are versions one
    /// precedes the other; and where the first precedes the second, what precedes the first
    /// precedes the second, and the first precedes what the second precedes.
    fn le(a: &str, b: &str) -> (r: bool)
        ensures
            r == Self::precedes(a@, b@),
            Self::version_of(a@) is Some && Self::version_of(b@) is Some ==> r || Self::precedes(
                b@,
                a@,
            ),
            forall|c: Seq<char>| r && #[trigger] Self::precedes(c, a@) ==> Self::precedes(c, b@),
            forall|c: Seq<char>| r && #[trigger] Self::precedes(b@, c) ==> Self::precedes(a@, c),
    ;

    /// Decides whether a requirement lets a version in, both given as text.
    fn matches(requirement: &str, version: &str) -> (r: bool)
        ensures
            r == Self::satisfies(requirement@, version@),
    ;

    /// Decides whether a version is a prerelease.
    fn prerelease(v: &Self::Version) -> (r: bool)
        ensures
            r == Self::is_prerelease(v@),
    ;

    /// Decides whether two versions belong to one release.
    fn same_line(v: &Self::Version, other: &Self::Version) -> (r: bool)
        ensures
            r == Self::same_release(v@, other@),
    ;

    /// Makes a version equal to `v`.
    fn duplicate(v: &Self::Version) -> (r: Self::Version)
        ensures
            r@ == v@,
    ;

    /// Writes a version out.
    fn text(v: &Self::Version) -> (r: Vec<char>)
        ensures
            r@ == Self::text_of(v@),
    ;

    /// Takes white space and the characters of operators from the start of what is typed.
    fn strip_operators(partial: &str) -> (r: String)
        ensures
            r@ == Self::bare_prefix(partial@),
    ;
}

/// One version string of a pool, with the mark of its being deprecated.
#[derive(Debug, Clone, PartialEq, Eq)]
pub struct VersionEntry {
    pub raw: String,
    pub deprecated: bool,
}

/// What holds of a version of the pool that may be chosen as the latest.
pub struct Standing<V> {
    /// The version itself.
    pub version: V,
    /// Whether it is written as the reference version is, but for the case of letters.
    pub exact: bool,
    /// Whether it is the reference version or meets the reference read as a requirement.
    pub compatible: bool,
}

/// Whether a version of the pool is kept from being chosen: it is a prerelease of another
/// release than the one of the reference version.
pub open spec fn hidden<S: VersionScheme>(
    v: <S::Version as View>::V,
    this: <S::Version as View>::V,
) -> bool {
    S::is_prerelease(v) && !S::same_release(v, this)
}

/// How the version string `raw` stands to `reference`: `None` where it cannot be chosen,
/// because the reference is no version, or `raw` is deprecated, is no version, or is hidden.
pub open spec fn standing<S: VersionScheme>(
    reference: Seq<char>,
    raw: Seq<char>,
    deprecated: bool,
) -> Option<Standing<<S::Version as View>::V>> {
    match (S::version_of(trimmed(reference)), S::version_of(trimmed(raw))) {
        (Some(this), Some(v)) => if deprecated || hidden::<S>(v, this) {
            None
        } else {
            let exact = equal_ignoring_ascii_case(S::text_of(v), S::text_of(this));
            Some(
                Standing {
                    version: v,
                    exact,
                    compatible: exact || S::satisfies(trimmed(reference), trimmed(raw)),
                },
            )
        },
        _ => None,
    }
}

/// A reference version, read once for a whole pool.
pub struct Reference<S: VersionScheme> {
    /// The reference without the white space around it.
    pub core: String,
    /// The version that it stands for.
    pub version: S::Version,
    /// That version written out.
    pub text: Vec<char>,
}

impl<S: VersionScheme> Reference<S> {
    /// Whether `self` is what [`Reference::read`] makes of `reference`.
    pub open spec fn reads(&self, reference: Seq<char>) -> bool {
        &&& self.core@ == trimmed(reference)
        &&& S::version_of(trimmed(reference)) == Some(self.version@)
        &&& self.text@ == S::text_of(self.version@)
    }

    /// Reads a reference version; `None` where `reference` is no version.
    pub fn read(reference: &str) -> (r: Option<Self>)
        ensures
            match r {
                Some(x) => x.reads(reference@),
                None => S::version_of(trimmed(reference@)) is None,
            },
    {
        let core = trim(reference);
        match S::parse(core.as_str()) {
            Some(version) => {
                let text = S::text(&version);
                Some(Reference { core, version, text })
            },
            None => None,
        }
    }
}

/// A version of the pool that may be chosen, as [`assess`] found it.
pub struct Assessed<S: VersionScheme> {
    /// The version string without the white space around it.
    pub core: String,
    /// The reference version.
    pub this_version: S::Version,
    /// The version itself.
    pub version: S::Version,
    /// Whether it is written as the reference version is, but for the case of letters.
    pub is_exactly_compatible: bool,
    /// Whether it is the reference version or meets the reference read as a requirement.
    pub is_compatible: bool,
}

/// Decides how one version string of the pool stands to the reference.
pub fn assess<S: VersionScheme>(this: &Reference<S>, raw: &str, deprecated: bool) -> (r: Option<
    Assessed<S>,
>)
    ensures
        forall|reference: Seq<char>| #[trigger]
            this.reads(reference) ==> match r {
                Some(a) => a.core@ == trimmed(raw@) && S::version_of(trimmed(reference)) == Some(
                    a.this_version@,
                ) && standing::<S>(reference, raw@, deprecated) == Some(
                    Standing {
                        version: a.version@,
                        exact: a.is_exactly_compatible,
                        compatible: a.is_compatible,
                    },
                ),
                None => standing::<S>(reference, raw@, deprecated) is None,
            },
{
    if deprecated {
        return None;
    }
    let core = trim(raw);
    match S::parse(core.as_str()) {
        Some(version) => {
            if S::prerelease(&version) && !S::same_line(&version, &this.version) {
                return None;
            }
            let text = S::text(&version);
            let is_exactly_compatible = eq_ignore_ascii_case(&text, &this.text);
            let is_compatible = is_exactly_compatible || S::matches(
                this.core.as_str(),
                core.as_str(),
            );
            let this_version = S::duplicate(&this.version);
            Some(Assessed { core, this_version, version, is_exactly_compatible, is_compatible })
        },
        None => None,
    }
}

/// Whether `w` is the place of the latest of the version strings that `keep` marks: every
/// other marked string precedes `strings[w]`, and `strings[w]` precedes none that follows it.
pub open spec fn is_latest<S: VersionScheme>(strings: Seq<Seq<char>>, keep: Seq<bool>, w: int) -> bool {
    &&& 0 <= w < strings.len()
    &&& keep[w]
    &&& forall|i: int|
        0 <= i < strings.len() && i != w && #[trigger] keep[i] ==> S::precedes(strings[i], strings[w])
    &&& forall|i: int|
        w < i < strings.len() && #[trigger] keep[i] ==> !S::precedes(strings[w], strings[i])
}

/// The place of the latest of the versions that `keep` marks; among equal versions the last.
/// `None` where `keep` marks none.
pub fn latest_index<S: VersionScheme>(strings: &Vec<String>, keep: &Vec<bool>) -> (r: Option<usize>)
    requires
        strings.len() == keep.len(),
        forall|i: int|
            0 <= i < strings.len() && #[trigger] keep@[i] ==> S::version_of(strings@[i]@) is Some,
    ensures
        match r {
            Some(w) => is_latest::<S>(texts(strings@), keep@, w as int),
            None => forall|i: int| 0 <= i < keep.len() ==> !#[trigger] keep@[i],
        },
{
    let ghost t = texts(strings@);
    let mut best: Option<usize> = None;
    let mut i: usize = 0;
    while i < strings.len()
        invariant
            i <= strings.len(),
            strings.len() == keep.len(),
            t == texts(strings@),
            forall|k: int|
                0 <= k < strings.len() && #[trigger] keep@[k] ==> S::version_of(strings@[k]@) is Some,
            match best {
                Some(w) => {
                    &&& w < i
                    &&& keep@[w as int]
                    &&& forall|k: int|
                        0 <= k < i && k != w && #[trigger] keep@[k] ==> S::precedes(
                            t[k],
                            t[w as int],
                        )
                    &&& forall|k: int|
                        w < k < i && #[trigger] keep@[k] ==> !S::precedes(t[w as int], t[k])
                },
                None => forall|k: int| 0 <= k < i ==> !#[trigger] keep@[k],
            },
        decreases strings.len() - i,
    {
        if keep[i] {
            match best {
                Some(w) => {
                    assert(t[w as int] == strings@[w as int]@ && t[i as int] == strings@[i as int]@);
                    if S::le(strings[w].as_str(), strings[i].as_str()) {
                        best = Some(i);
                    } else {
                        assert(S::precedes(t[i as int], t[w as int]));
                    }
                },
                None => {
                    best = Some(i);
                },
            }
        }
        i = i + 1;
    }
    best
}

/// Whether a version string is offered for completion after `prefix`: it is not deprecated
/// and starts with `prefix`.
pub open spec fn offered(prefix: Seq<char>, raw: Seq<char>, deprecated: bool) -> bool {
    !deprecated && prefix.is_prefix_of(raw)
}

/// Decides whether one version string is offered for completion after `prefix`.
pub fn is_offered(prefix: &Vec<char>, raw: &str, deprecated: bool) -> (r: bool)
    ensures
        r == offered(prefix@, raw@, deprecated),
{
    if deprecated {
        return false;
    }
    let v = chars_of(raw);
    starts_with(&v, prefix)
}

/// Whether a version string is a version once the white space around it is left out.
pub open spec fn is_version<S: VersionScheme>(raw: Seq<char>) -> bool {
    S::version_of(trimmed(raw)) is Some
}

/// The order in which version strings are offered: as versions where both are versions once
/// the white space around them is left out, else as strings, character by character.
pub open spec fn ranks_le<S: VersionScheme>(a: Seq<char>, b: Seq<char>) -> bool {
    if is_version::<S>(a) && is_version::<S>(b) {
        S::precedes(trimmed(a), trimmed(b))
    } else {
        lex_le(a, b)
    }
}

/// Whether three strings are all versions or are none of them a version, so that one order
/// holds between them.
pub open spec fn of_one_kind<S: VersionScheme>(a: Seq<char>, b: Seq<char>, c: Seq<char>) -> bool {
    is_version::<S>(a) == is_version::<S>(b) && is_version::<S>(b) == is_version::<S>(c)
}

/// Whether the strings that `keep` marks are all versions or are none of them a version.
pub open spec fn all_of_one_kind<S: VersionScheme>(raws: Seq<Seq<char>>, keep: Seq<bool>) -> bool {
    ||| forall|i: int| 0 <= i < raws.len() && #[trigger] keep[i] ==> is_version::<S>(raws[i])
    ||| forall|i: int| 0 <= i < raws.len() && #[trigger] keep[i] ==> !is_version::<S>(raws[i])
}

/// Whether `a` ranks no higher than whatever `b` ranks no higher than, among strings of one
/// kind.
pub open spec fn passes_on<S: VersionScheme>(a: Seq<char>, b: Seq<char>) -> bool {
    forall|c: Seq<char>|
        of_one_kind::<S>(a, b, c) && #[trigger] ranks_le::<S>(b, c) ==> ranks_le::<S>(a, c)
}

/// A version string with what the order of completion reads of it.
pub struct Ranked {
    pub chars: Vec<char>,
    /// The string without the white space around it.
    pub core: String,
    /// Whether `core` is a version.
    pub is_version: bool,
}

impl Ranked {
    /// Whether `self` is what [`Ranked::read`] makes of `raw`.
    pub open spec fn reads<S: VersionScheme>(&self, raw: Seq<char>) -> bool {
        &&& self.chars@ == raw
        &&& self.core@ == trimmed(raw)
        &&& self.is_version == is_version::<S>(raw)
    }

    /// Reads a version string for ranking.
    pub fn read<S: VersionScheme>(raw: &str) -> (r: Ranked)
        ensures
            r.reads::<S>(raw@),
    {
        let chars = chars_of(raw);
        let core = trim(raw);
        let is_version = S::parse(core.as_str()).is_some();
        Ranked { chars, core, is_version }
    }
}

/// Compares two version strings in the order of completion. Of two strings one ranks no
/// higher than the other; and where the first ranks no higher than the second, it ranks no
/// higher than whatever the second ranks no higher than, among strings of one kind.
pub fn rank_le<S: VersionScheme>(a: &Ranked, b: &Ranked) -> (r: bool)
    ensures
        forall|x: Seq<char>, y: Seq<char>|
            #![trigger a.reads::<S>(x), b.reads::<S>(y)]
            a.reads::<S>(x) && b.reads::<S>(y) ==> r == ranks_le::<S>(x, y) && (r || ranks_le::<S>(
                y,
                x,
            )) && (r ==> passes_on::<S>(x, y)),
{
    if a.is_version && b.is_version {
        S::le(a.core.as_str(), b.core.as_str())
    } else {
        let r = lexicographic_le(&a.chars, &b.chars);
        proof {
            lemma_lex_total(a.chars@, b.chars@);
            assert forall|x: Seq<char>, y: Seq<char>|
                #![trigger a.reads::<S>(x), b.reads::<S>(y)]
                a.reads::<S>(x) && b.reads::<S>(y) && r implies passes_on::<S>(x, y) by {
                assert forall|c: Seq<char>|
                    of_one_kind::<S>(x, y, c) && #[trigger] ranks_le::<S>(y, c) implies ranks_le::<
                    S,
                >(x, c) by {
                    lemma_lex_transitive(x, y, c);
                }
            }
        }
        r
    }
}

/// The string at the place `k` of an order.
pub open spec fn ranked_at(raws: Seq<Seq<char>>, order: Seq<usize>, k: int) -> Seq<char> {
    raws[order[k] as int]
}

/// Whether every string of an order ranks no higher than each string before it.
pub open spec fn is_descending<S: VersionScheme>(raws: Seq<Seq<char>>, order: Seq<usize>) -> bool {
    forall|a: int, b: int|
        0 <= a < b < order.len() ==> ranks_le::<S>(
            #[trigger] ranked_at(raws, order, b),
            #[trigger] ranked_at(raws, order, a),
        )
}

/// Whether `order` lists the places of the version strings that `keep` marks, each once, so
/// that no string is followed by one that ranks above it; and, where the strings are all
/// versions or are none of them a version, so that every string ranks no higher than each
/// string before it.
pub open spec fn is_ranking<S: VersionScheme>(
    raws: Seq<Seq<char>>,
    keep: Seq<bool>,
    order: Seq<usize>,
) -> bool {
    &&& order.no_duplicates()
    &&& forall|k: int| 0 <= k < order.len() ==> #[trigger] order[k] < raws.len() && keep[order[k] as int]
    &&& forall|i: int| 0 <= i < raws.len() && #[trigger] keep[i] ==> order.contains(i as usize)
    &&& forall|k: int|
        0 <= k < order.len() - 1 ==> ranks_le::<S>(
            raws[#[trigger] order[k + 1] as int],
            raws[order[k] as int],
        )
    &&& all_of_one_kind::<S>(raws, keep) ==> is_descending::<S>(raws, order)
}

/// Putting a new place into a ranking keeps every place that was in it.
proof fn lemma_insert_keeps(order: Seq<usize>, j: int, i: usize)
    requires
        0 <= j <= order.len(),
        order.no_duplicates(),
        !order.contains(i),
    ensures
        order.insert(j, i).no_duplicates(),
        order.insert(j, i).contains(i),
        forall|m: usize| order.contains(m) ==> #[trigger] order.insert(j, i).contains(m),
        forall|k: int| 0 <= k < j ==> #[trigger] order.insert(j, i)[k] == order[k],
        forall|k: int| j < k <= order.len() ==> #[trigger] order.insert(j, i)[k] == order[k - 1],
        order.insert(j, i)[j] == i,
{
    let new = order.insert(j, i);
    assert(new[j] == i);
    assert forall|m: usize| order.contains(m) implies #[trigger] new.contains(m) by {
        let w = choose|w: int| 0 <= w < order.len() && order[w] == m;
        if w < j {
            assert(new[w] == m);
        } else {
            assert(new[w + 1] == m);
        }
    }
    assert forall|a: int, b: int| 0 <= a < new.len() && 0 <= b < new.len() && a != b implies new[a]
        != new[b] by {
        let oa = if a < j {
            a
        } else {
            a - 1
        };
        let ob = if b < j {
            b
        } else {
            b - 1
        };
        if a == j {
            assert(new[b] == order[ob]);
            assert(order.contains(order[ob]));
        } else if b == j {
            assert(new[a] == order[oa]);
            assert(order.contains(order[oa]));
        } else {
            assert(new[a] == order[oa] && new[b] == order[ob]);
        }
    }
}

/// The places of the version strings that `keep` marks, in the order in which they are
/// offered for completion: the latest first.
pub fn ranking<S: VersionScheme>(raws: &Vec<String>, keep: &Vec<bool>) -> (order: Vec<usize>)
    requires
        raws.len() == keep.len(),
    ensures
        is_ranking::<S>(texts(raws@), keep@, order@),
{
    let ghost t = texts(raws@);
    let n = raws.len();
    let mut items: Vec<Ranked> = Vec::new();
    let mut r: usize = 0;
    while r < n
        invariant
            r <= n,
            n == raws.len(),
            t == texts(raws@),
            items.len() == r,
            forall|k: int| 0 <= k < r ==> (#[trigger] items@[k]).reads::<S>(t[k]),
        decreases n - r,
    {
        let item = Ranked::read::<S>(raws[r].as_str());
        assert(t[r as int] == raws@[r as int]@);
        items.push(item);
        r = r + 1;
    }
    let mut order: Vec<usize> = Vec::new();
    let mut i: usize = 0;
    while i < n
        invariant
            i <= n,
            n == raws.len(),
            n == keep.len(),
            n == items.len(),
            t == texts(raws@),
            t.len() == n,
            forall|k: int| 0 <= k < n ==> (#[trigger] items@[k]).reads::<S>(t[k]),
            order@.no_duplicates(),
            forall|k: int| 0 <= k < order.len() ==> #[trigger] order@[k] < i && keep@[order@[k] as int],
            forall|m: int| 0 <= m < i && #[trigger] keep@[m] ==> order@.contains(m as usize),
            forall|k: int|
                0 <= k < order.len() - 1 ==> ranks_le::<S>(
                    t[#[trigger] order@[k + 1] as int],
                    t[order@[k] as int],
                ),
            all_of_one_kind::<S>(t, keep@) ==> is_descending::<S>(t, order@),
        decreases n - i,
    {
        if keep[i] {
            let mut j: usize = order.len();
            while j > 0
                invariant
                    j <= order.len(),
                    i < n,
                    n == items.len(),
                    t.len() == n,
                    forall|k: int| 0 <= k < n ==> (#[trigger] items@[k]).reads::<S>(t[k]),
                    forall|k: int| 0 <= k < order.len() ==> #[trigger] order@[k] < i,
                    forall|k: int|
                        j <= k < order.len() ==> ranks_le::<S>(
                            #[trigger] ranked_at(t, order@, k),
                            t[i as int],
                        ),
                ensures
                    j <= order.len(),
                    forall|k: int|
                        j <= k < order.len() ==> ranks_le::<S>(
                            #[trigger] ranked_at(t, order@, k),
                            t[i as int],
                        ),
                    j > 0 ==> ranks_le::<S>(t[i as int], ranked_at(t, order@, j - 1)) && passes_on::<S>(
                        t[i as int],
                        ranked_at(t, order@, j - 1),
                    ),
                decreases j,
            {
                let before = order[j - 1];
                assert(order@[j - 1] < i);
                assert(items@[i as int].reads::<S>(t[i as int]));
                assert(items@[before as int].reads::<S>(t[before as int]));
                if rank_le::<S>(&items[i], &items[before]) {
                    break ;
                }
                j = j - 1;
            }
            proof {
                let old_order = order@;
                assert(!old_order.contains(i)) by {
                    if old_order.contains(i) {
                        let w = choose|w: int| 0 <= w < old_order.len() && old_order[w] == i;
                        assert(old_order[w] < i);
                    }
                }
                lemma_insert_keeps(old_order, j as int, i);
                let new = old_order.insert(j as int, i);
                assert forall|k: int| 0 <= k < new.len() - 1 implies ranks_le::<S>(
                    t[#[trigger] new[k + 1] as int],
                    t[new[k] as int],
                ) by {
                    if k + 1 < j {
                        assert(new[k + 1] == old_order[k + 1] && new[k] == old_order[k]);
                    } else if k + 1 == j {
                        assert(new[k] == old_order[k]);
                        assert(ranked_at(t, old_order, j - 1) == t[old_order[k] as int]);
                    } else if k == j {
                        assert(new[k + 1] == old_order[k]);
                        assert(ranks_le::<S>(ranked_at(t, old_order, k), t[i as int]));
                    } else {
                        assert(new[k + 1] == old_order[k] && new[k] == old_order[k - 1]);
                        assert(ranks_le::<S>(
                            t[old_order[(k - 1) + 1] as int],
                            t[old_order[k - 1] as int],
                        ));
                    }
                }
                assert forall|k: int| 0 <= k < new.len() implies #[trigger] new[k] < i + 1
                    && keep@[new[k] as int] by {
                    if k < j {
                        assert(new[k] == old_order[k]);
                    } else if k > j {
                        assert(new[k] == old_order[k - 1]);
                    }
                }
                assert forall|m: int| 0 <= m < i + 1 && #[trigger] keep@[m] implies new.contains(
                    m as usize,
                ) by {
                    if m < i {
                        assert(old_order.contains(m as usize));
                    }
                }
                if all_of_one_kind::<S>(t, keep@) {
                    lemma_insert_descending::<S>(t, keep@, old_order, j as int, i);
                }
            }
            order.insert(j, i);
        }
        i = i + 1;
    }
    order
}

/// A string that is put into a descending order of strings of its kind, after the last
/// string that it ranks no higher than and before the strings that rank no higher than it,
/// leaves the order descending.
proof fn lemma_insert_descending<S: VersionScheme>(
    t: Seq<Seq<char>>,
    keep: Seq<bool>,
    order: Seq<usize>,
    j: int,
    i: usize,
)
    requires
        all_of_one_kind::<S>(t, keep),
        is_descending::<S>(t, order),
        0 <= j <= order.len(),
        i < t.len(),
        keep[i as int],
        forall|k: int| 0 <= k < order.len() ==> #[trigger] order[k] < t.len() && keep[order[k] as int],
        forall|k: int|
            j <= k < order.len() ==> ranks_le::<S>(#[trigger] ranked_at(t, order, k), t[i as int]),
        j > 0 ==> ranks_le::<S>(t[i as int], ranked_at(t, order, j - 1)) && passes_on::<S>(
            t[i as int],
            ranked_at(t, order, j - 1),
        ),
    ensures
        is_descending::<S>(t, order.insert(j, i)),
{
    let new = order.insert(j, i);
    let x = t[i as int];
    assert forall|a: int| 0 <= a < j implies ranks_le::<S>(x, #[trigger] ranked_at(t, order, a)) by {
        let last = ranked_at(t, order, j - 1);
        let here = ranked_at(t, order, a);
        assert(order[a] < t.len() && keep[order[a] as int]);
        assert(order[j - 1] < t.len() && keep[order[j - 1] as int]);
        if a < j - 1 {
            assert(ranks_le::<S>(ranked_at(t, order, j - 1), ranked_at(t, order, a)));
            assert(of_one_kind::<S>(x, last, here));
        }
    }
    assert forall|a: int, b: int| 0 <= a < b < new.len() implies ranks_le::<S>(
        #[trigger] ranked_at(t, new, b),
        #[trigger] ranked_at(t, new, a),
    ) by {
        if b == j {
            assert(new[a] == order[a]);
            assert(ranks_le::<S>(x, ranked_at(t, order, a)));
        } else if a == j {
            assert(new[b] == order[b - 1]);
            assert(ranks_le::<S>(ranked_at(t, order, b - 1), x));
        } else if a < j && b > j {
            assert(new[a] == order[a] && new[b] == order[b - 1]);
            assert(ranks_le::<S>(ranked_at(t, order, b - 1), ranked_at(t, order, a)));
        } else if b < j {
            assert(new[a] == order[a] && new[b] == order[b]);
            assert(ranks_le::<S>(ranked_at(t, order, b), ranked_at(t, order, a)));
        } else {
            assert(new[a] == order[a - 1] && new[b] == order[b - 1]);
            assert(ranks_le::<S>(ranked_at(t, order, b - 1), ranked_at(t, order, a - 1)));
        }
    }
}

/// The version strings of a pool, each without the white space around it.
pub open spec fn cores(entries: Seq<(Seq<char>, bool)>) -> Seq<Seq<char>> {
    Seq::new(entries.len(), |i: int| trimmed(entries[i].0))
}

/// For each entry of a pool, whether it can be chosen as the latest version.
pub open spec fn eligible<S: VersionScheme>(reference: Seq<char>, entries: Seq<(Seq<char>, bool)>) -> Seq<
    bool,
> {
    Seq::new(
        entries.len(),
        |i: int| standing::<S>(reference, entries[i].0, entries[i].1) is Some,
    )
}

/// Whether `r` is the outcome of choosing the latest version of a pool: the place of the latest
/// of the entries that can be chosen, or `None` where none can.
pub open spec fn is_latest_entry<S: VersionScheme>(
    reference: Seq<char>,
    entries: Seq<(Seq<char>, bool)>,
    r: Option<int>,
) -> bool {
    match r {
        Some(w) => is_latest::<S>(cores(entries), eligible::<S>(reference, entries), w),
        None => forall|i: int|
            0 <= i < entries.len() ==> !#[trigger] eligible::<S>(reference, entries)[i],
    }
}

/// For each entry of a pool, whether it is offered for completion after `prefix`.
pub open spec fn offers(prefix: Seq<char>, entries: Seq<(Seq<char>, bool)>) -> Seq<bool> {
    Seq::new(entries.len(), |i: int| offered(prefix, entries[i].0, entries[i].1))
}

/// The version strings of a pool.
pub open spec fn raws(entries: Seq<(Seq<char>, bool)>) -> Seq<Seq<char>> {
    Seq::new(entries.len(), |i: int| entries[i].0)
}

/// The reference version itself can be chosen, and is then found to be the reference exactly:
/// choosing anew from a pool that holds nothing but an earlier choice, with that choice as the
/// reference, chooses it again.
pub proof fn lemma_choice_is_kept<S: VersionScheme>(reference: Seq<char>, raw: Seq<char>)
    requires
        S::version_of(trimmed(reference)) is Some,
        S::version_of(trimmed(raw)) == S::version_of(trimmed(reference)),
    ensures
        standing::<S>(reference, raw, false) == Some(
            Standing {
                version: S::version_of(trimmed(reference))->0,
                exact: true,
                compatible: true,
            },
        ),
        is_latest_entry::<S>(reference, seq![(raw, false)], Some(0)),
        !is_latest_entry::<S>(reference, seq![(raw, false)], None),
        forall|w: int| #[trigger]
            is_latest_entry::<S>(reference, seq![(raw, false)], Some(w)) ==> w == 0,
{
    let entries = seq![(raw, false)];
    let can = eligible::<S>(reference, entries);
    S::lemma_same_release_reflexive(S::version_of(trimmed(reference))->0);
    assert(can[0]);
}

/// No deprecated entry is chosen as the latest version, whatever the pool.
pub proof fn lemma_latest_is_not_deprecated<S: VersionScheme>(
    reference: Seq<char>,
    entries: Seq<(Seq<char>, bool)>,
    w: int,
)
    requires
        is_latest_entry::<S>(reference, entries, Some(w)),
    ensures
        0 <= w < entries.len(),
        !entries[w].1,
{
    assert(eligible::<S>(reference, entries)[w]);
}

/// No deprecated entry is offered for completion, whatever the pool.
pub proof fn lemma_ranking_has_no_deprecated<S: VersionScheme>(
    partial: Seq<char>,
    entries: Seq<(Seq<char>, bool)>,
    order: Seq<usize>,
    k: int,
)
    requires
        is_ranking::<S>(raws(entries), offers(S::bare_prefix(partial), entries), order),
        0 <= k < order.len(),
    ensures
        0 <= order[k] < entries.len(),
        !entries[order[k] as int].1,
{
    let m = order[k] as int;
    assert(order[k] < raws(entries).len());
    assert(offers(S::bare_prefix(partial), entries)[m]);
}

} // verus!
