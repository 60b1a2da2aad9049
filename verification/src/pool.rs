//! Choosing and offering versions from a pool of items, whatever the scheme, the items and
//! the records that are made of what is found.
//!
//! An item is asked for its version string and for whether it is deprecated through the two
//! functions that are handed in with the pool. What they answer is all that is known of an
//! item, so that the contracts speak of what was answered.
use crate::scheme::{
    assess, cores, eligible, is_latest, is_latest_entry, is_offered, is_ranking, latest_index,
    lemma_choice_is_kept, offered, offers, ranking, raws, standing, Assessed, Reference, Standing,
    VersionScheme,
};
use crate::text::{chars_of, texts, trim, trimmed};
use crate::vecs::{in_reverse, into_slots, take_at};
use vstd::prelude::*;

verus! {

/// A record of the latest version that was found in a pool, with the item it came from.
pub trait Chosen<S: VersionScheme, T>: Sized {
    /// The item that the version came from.
    spec fn chosen_item(&self) -> T;

    /// The reference version.
    spec fn reference_version(&self) -> <S::Version as View>::V;

    /// How the version stands to the reference.
    spec fn chosen_standing(&self) -> Standing<<S::Version as View>::V>;

    /// Makes the record of what was found of `item`.
    fn build(found: Assessed<S>, item: T) -> (r: Self)
        ensures
            r.chosen_item() == item,
            r.reference_version() == found.this_version@,
            r.chosen_standing() == (Standing {
                version: found.version@,
                exact: found.is_exactly_compatible,
                compatible: found.is_compatible,
            }),
    ;
}

/// A record of a version that is offered for completion, with the item it came from.
pub trait Offer<S: VersionScheme, T>: Sized {
    /// The item that is offered.
    spec fn offered_item(&self) -> T;

    /// What was typed, without its operators.
    spec fn typed(&self) -> Seq<char>;

    /// The version that was typed, where it is one.
    spec fn typed_version(&self) -> Option<<S::Version as View>::V>;

    /// The version string of the item.
    spec fn offered_raw(&self) -> Seq<char>;

    /// The version of the item, where its version string is one.
    spec fn offered_version(&self) -> Option<<S::Version as View>::V>;

    /// Makes the record of an offer.
    fn build(
        this_version: Option<S::Version>,
        this_version_raw: String,
        item_version: Option<S::Version>,
        item_version_raw: String,
        item: T,
    ) -> (r: Self)
        ensures
            r.offered_item() == item,
            r.typed() == this_version_raw@,
            r.typed_version() == view_of::<S>(this_version),
            r.offered_raw() == item_version_raw@,
            r.offered_version() == view_of::<S>(item_version),
    ;
}

/// Whether `entry` is what `item` said of itself: its version string and whether it is
/// deprecated.
pub open spec fn describes<V, N: Fn(&V) -> String, D: Fn(&V) -> bool>(
    name: N,
    deprecated: D,
    item: V,
    entry: (Seq<char>, bool),
) -> bool {
    &&& call_ensures(deprecated, (&item,), entry.1)
    &&& exists|raw: String| #[trigger]
        call_ensures(name, (&item,), raw) && raw@ == entry.0
}

/// Whether `x` records how `item`, which said `entry` of itself, stands to `reference`.
pub open spec fn records<S: VersionScheme, V, R: Chosen<S, V>>(
    reference: Seq<char>,
    item: V,
    entry: (Seq<char>, bool),
    x: R,
) -> bool {
    &&& x.chosen_item() == item
    &&& S::version_of(trimmed(reference)) == Some(x.reference_version())
    &&& standing::<S>(reference, entry.0, entry.1) == Some(x.chosen_standing())
}

/// Whether `verdict` is what the filter said of `item`: of the record of how it stands to
/// `reference`, where it can be chosen at all; else `false`.
pub open spec fn judges<S: VersionScheme, V, R: Chosen<S, V>, F: Fn(&R) -> bool>(
    reference: Seq<char>,
    item: V,
    entry: (Seq<char>, bool),
    filter_fn: F,
    verdict: bool,
) -> bool {
    if standing::<S>(reference, entry.0, entry.1) is Some {
        exists|x: R| #[trigger]
            records::<S, V, R>(reference, item, entry, x) && call_ensures(filter_fn, (&x,), verdict)
    } else {
        !verdict
    }
}

/// Whether `r` is the latest version of `pool` for `reference`, where the items said `entries`
/// of themselves and the filter let through the records that `accepted` marks.
pub open spec fn selects<
    S: VersionScheme,
    V,
    N: Fn(&V) -> String,
    D: Fn(&V) -> bool,
    R: Chosen<S, V>,
    F: Fn(&R) -> bool,
>(
    reference: Seq<char>,
    pool: Seq<V>,
    name: N,
    deprecated: D,
    filter_fn: F,
    entries: Seq<(Seq<char>, bool)>,
    accepted: Seq<bool>,
    r: Option<R>,
) -> bool {
    &&& entries.len() == pool.len()
    &&& accepted.len() == pool.len()
    &&& forall|i: int|
        0 <= i < pool.len() ==> describes(name, deprecated, pool[i], #[trigger] entries[i])
    &&& forall|i: int|
        0 <= i < pool.len() ==> #[trigger] judges::<S, V, R, _>(
            reference,
            pool[i],
            entries[i],
            filter_fn,
            accepted[i],
        )
    &&& match r {
        Some(x) => exists|w: int| #[trigger]
            is_latest::<S>(cores(entries), accepted, w) && records::<S, V, R>(
                reference,
                pool[w],
                entries[w],
                x,
            ),
        None => forall|i: int| 0 <= i < pool.len() ==> !#[trigger] accepted[i],
    }
}

/// The latest of the versions of `other_versions` that `filter_fn` lets through.
///
/// An item is passed over where it is deprecated, holds no version, or holds a prerelease of
/// another release than the reference's. Of what is left, the latest version is returned, and
/// of equal versions the last. The result is `None` where `reference` is no version.
pub fn choose_latest_filtered<
    S: VersionScheme,
    V,
    N: Fn(&V) -> String,
    D: Fn(&V) -> bool,
    R: Chosen<S, V>,
    F: Fn(&R) -> bool,
>(
    reference: &str,
    other_versions: Vec<V>,
    name: N,
    deprecated: D,
    filter_fn: F,
) -> (r: Option<R>)
    requires
        forall|x: &V| call_requires(name, (x,)),
        forall|x: &V| call_requires(deprecated, (x,)),
        forall|x: &R| call_requires(filter_fn, (x,)),
    ensures
        S::version_of(trimmed(reference@)) is None ==> r is None,
        exists|entries: Seq<(Seq<char>, bool)>, accepted: Seq<bool>| #[trigger]
            selects::<S, V, N, D, R, _>(
                reference@,
                other_versions@,
                name,
                deprecated,
                filter_fn,
                entries,
                accepted,
                r,
            ),
{
    let ghost pool = other_versions@;
    let n = other_versions.len();
    let mut stack = in_reverse(other_versions);
    let this = Reference::<S>::read(reference);
    let mut found: Vec<Option<R>> = Vec::new();
    let mut strings: Vec<String> = Vec::new();
    let mut keep: Vec<bool> = Vec::new();
    let ghost mut entries: Seq<(Seq<char>, bool)> = Seq::empty();
    let mut i: usize = 0;
    while i < n
        invariant
            i <= n,
            n == pool.len(),
            stack@.len() == n - i,
            forall|k: int| 0 <= k < n - i ==> stack@[k] == pool[n - 1 - k],
            forall|x: &R| call_requires(filter_fn, (x,)),
            forall|x: &V| call_requires(name, (x,)),
            forall|x: &V| call_requires(deprecated, (x,)),
            match this {
                Some(t) => t.reads(reference@),
                None => S::version_of(trimmed(reference@)) is None,
            },
            found.len() == i,
            strings.len() == i,
            keep.len() == i,
            entries.len() == i,
            forall|k: int|
                0 <= k < i ==> describes(name, deprecated, pool[k], #[trigger] entries[k]),
            forall|k: int| 0 <= k < i ==> (#[trigger] strings@[k])@ == trimmed(entries[k].0),
            forall|k: int|
                0 <= k < i ==> (#[trigger] found@[k] is Some) == (standing::<S>(
                    reference@,
                    entries[k].0,
                    entries[k].1,
                ) is Some),
            forall|k: int|
                0 <= k < i && (#[trigger] found@[k]) is Some ==> records::<S, V, R>(
                    reference@,
                    pool[k],
                    entries[k],
                    found@[k]->0,
                ) && call_ensures(filter_fn, (&found@[k]->0,), keep@[k]),
            forall|k: int| 0 <= k < i && (#[trigger] found@[k]) is None ==> !keep@[k],
        decreases n - i,
    {
        let item = stack.pop().unwrap();
        assert(item == pool[i as int]);
        let raw = name(&item);
        let is_deprecated = deprecated(&item);
        let ghost entry = (raw@, is_deprecated);
        proof {
            assert(call_ensures(name, (&item,), raw) && raw@ == entry.0);
            assert(describes(name, deprecated, item, entry));
            entries = entries.push(entry);
        }
        strings.push(trim(raw.as_str()));
        let assessed = match &this {
            Some(t) => assess::<S>(t, raw.as_str(), is_deprecated),
            None => None,
        };
        let ghost before = found@;
        let ghost kept_before = keep@;
        match assessed {
            Some(a) => {
                let record = R::build(a, item);
                assert(records::<S, V, R>(reference@, pool[i as int], entry, record));
                let verdict = filter_fn(&record);
                keep.push(verdict);
                found.push(Some(record));
                assert(found@[i as int] == Some(record));
            },
            None => {
                assert(standing::<S>(reference@, entry.0, entry.1) is None);
                keep.push(false);
                found.push(None);
            },
        }
        proof {
            assert forall|k: int| 0 <= k < i implies found@[k] == before[k] && keep@[k]
                == kept_before[k] by {}
        }
        i = i + 1;
    }
    let ghost accepted = keep@;
    proof {
        assert(texts(strings@) =~= cores(entries));
        assert forall|k: int| 0 <= k < strings.len() && #[trigger] keep@[k] implies S::version_of(
            strings@[k]@,
        ) is Some by {
            if found@[k] is None {
                assert(!keep@[k]);
            }
            assert(found@[k] is Some);
            assert(standing::<S>(reference@, entries[k].0, entries[k].1) is Some);
        }
    }
    let ghost all_found = found@;
    let ghost mut chosen: usize = 0;
    let r = match latest_index::<S>(&strings, &keep) {
        Some(w) => {
            proof {
                chosen = w;
                assert(keep@[w as int]);
                assert(found@[w as int] is Some);
            }
            found.swap_remove(w)
        },
        None => None,
    };
    proof {
        assert forall|k: int| 0 <= k < pool.len() implies #[trigger] judges::<S, V, R, _>(
            reference@,
            pool[k],
            entries[k],
            filter_fn,
            accepted[k],
        ) by {
            if standing::<S>(reference@, entries[k].0, entries[k].1) is Some {
                assert(all_found[k] is Some);
                let x = all_found[k]->0;
                assert(records::<S, V, R>(reference@, pool[k], entries[k], x) && call_ensures(
                    filter_fn,
                    (&x,),
                    accepted[k],
                ));
            } else {
                assert(all_found[k] is None);
            }
        }
        if r is Some {
            let w = chosen as int;
            assert(is_latest::<S>(cores(entries), accepted, w) && records::<S, V, R>(
                reference@,
                pool[w],
                entries[w],
                r->0,
            ));
        }
        assert(selects::<S, V, N, D, R, _>(
            reference@,
            pool,
            name,
            deprecated,
            filter_fn,
            entries,
            accepted,
            r,
        ));
    }
    r
}

/// Whether `r` is the latest version of `pool` for `reference` where nothing is filtered out:
/// the items said `entries` of themselves.
pub open spec fn selects_unfiltered<
    S: VersionScheme,
    V,
    N: Fn(&V) -> String,
    D: Fn(&V) -> bool,
    R: Chosen<S, V>,
>(
    reference: Seq<char>,
    pool: Seq<V>,
    name: N,
    deprecated: D,
    entries: Seq<(Seq<char>, bool)>,
    r: Option<R>,
) -> bool {
    &&& entries.len() == pool.len()
    &&& forall|i: int|
        0 <= i < pool.len() ==> describes(name, deprecated, pool[i], #[trigger] entries[i])
    &&& match r {
        Some(x) => exists|w: int| #[trigger]
            is_latest_entry::<S>(reference, entries, Some(w)) && records::<S, V, R>(
                reference,
                pool[w],
                entries[w],
                x,
            ),
        None => is_latest_entry::<S>(reference, entries, None),
    }
}

/// The latest of the versions of `other_versions`: [`choose_latest_filtered`] with a
/// filter that lets every version through.
pub fn choose_latest<
    S: VersionScheme,
    V,
    N: Fn(&V) -> String,
    D: Fn(&V) -> bool,
    R: Chosen<S, V>,
>(reference: &str, other_versions: Vec<V>, name: N, deprecated: D) -> (r: Option<R>)
    requires
        forall|x: &V| call_requires(name, (x,)),
        forall|x: &V| call_requires(deprecated, (x,)),
    ensures
        S::version_of(trimmed(reference@)) is None ==> r is None,
        exists|entries: Seq<(Seq<char>, bool)>| #[trigger]
            selects_unfiltered::<S, V, N, D, R>(
                reference@,
                other_versions@,
                name,
                deprecated,
                entries,
                r,
            ),
{
    let every = |x: &R| -> (b: bool)
        ensures
            b,
        { true };
    let r = choose_latest_filtered::<S, V, N, D, R, _>(
        reference,
        other_versions,
        name,
        deprecated,
        every,
    );
    proof {
        let (entries, accepted) = choose|entries: Seq<(Seq<char>, bool)>, accepted: Seq<bool>|
            #[trigger] selects::<S, V, N, D, R, _>(
                reference@,
                other_versions@,
                name,
                deprecated,
                every,
                entries,
                accepted,
                r,
            );
        let can = eligible::<S>(reference@, entries);
        assert(accepted =~= can) by {
            assert forall|i: int| 0 <= i < accepted.len() implies accepted[i] == can[i] by {
                assert(judges::<S, V, R, _>(
                    reference@,
                    other_versions@[i],
                    entries[i],
                    every,
                    accepted[i],
                ));
                if standing::<S>(reference@, entries[i].0, entries[i].1) is Some {
                    let x = choose|x: R| #[trigger]
                        records::<S, V, R>(reference@, other_versions@[i], entries[i], x)
                            && call_ensures(every, (&x,), accepted[i]);
                    assert(accepted[i]);
                } else {
                    assert(!accepted[i]);
                }
            }
        }
        if r is Some {
            let w = choose|w: int| #[trigger]
                is_latest::<S>(cores(entries), accepted, w) && records::<S, V, R>(
                    reference@,
                    other_versions@[w],
                    entries[w],
                    r->0,
                );
            assert(is_latest_entry::<S>(reference@, entries, Some(w)));
        }
        assert(selects_unfiltered::<S, V, N, D, R>(
            reference@,
            other_versions@,
            name,
            deprecated,
            entries,
            r,
        ));
    }
    r
}

/// What an optional version stands for.
pub open spec fn view_of<S: VersionScheme>(v: Option<S::Version>) -> Option<
    <S::Version as View>::V,
> {
    match v {
        Some(x) => Some(x@),
        None => None,
    }
}

/// Whether `verdict` is what the filter said of `item`, where it is offered after `prefix` at
/// all; else `false`.
pub open spec fn admits<V, F: Fn(&V) -> bool>(
    prefix: Seq<char>,
    item: V,
    entry: (Seq<char>, bool),
    filter_fn: F,
    verdict: bool,
) -> bool {
    if offered(prefix, entry.0, entry.1) {
        call_ensures(filter_fn, (&item,), verdict)
    } else {
        !verdict
    }
}

/// Whether `c` offers `item`, which said `entry` of itself, after `prefix`.
pub open spec fn offers_item<S: VersionScheme, V, O: Offer<S, V>>(
    prefix: Seq<char>,
    item: V,
    entry: (Seq<char>, bool),
    c: O,
) -> bool {
    &&& c.offered_item() == item
    &&& c.offered_raw() == entry.0
    &&& c.typed() == prefix
    &&& c.typed_version() == S::version_of(prefix)
    &&& c.offered_version() == S::version_of(trimmed(entry.0))
}

/// Whether `r` is what is offered for completion of `partial` from `pool`, where the items
/// said `entries` of themselves, the filter let through what `accepted` marks, and `order`
/// is the order of the offer.
pub open spec fn completes<
    S: VersionScheme,
    V,
    N: Fn(&V) -> String,
    D: Fn(&V) -> bool,
    O: Offer<S, V>,
    F: Fn(&V) -> bool,
>(
    partial: Seq<char>,
    pool: Seq<V>,
    name: N,
    deprecated: D,
    filter_fn: F,
    entries: Seq<(Seq<char>, bool)>,
    accepted: Seq<bool>,
    order: Seq<usize>,
    r: Seq<O>,
) -> bool {
    let prefix = S::bare_prefix(partial);
    &&& entries.len() == pool.len()
    &&& accepted.len() == pool.len()
    &&& forall|i: int|
        0 <= i < pool.len() ==> describes(name, deprecated, pool[i], #[trigger] entries[i])
    &&& forall|i: int|
        0 <= i < pool.len() ==> #[trigger] admits(
            prefix,
            pool[i],
            entries[i],
            filter_fn,
            accepted[i],
        )
    &&& is_ranking::<S>(raws(entries), accepted, order)
    &&& r.len() == order.len()
    &&& forall|k: int|
        0 <= k < r.len() ==> offers_item::<S, V, O>(
            prefix,
            pool[order[k] as int],
            entries[order[k] as int],
            #[trigger] r[k],
        )
}

/// The versions of `potential_versions` that complete the partly typed `partial`, the latest
/// first.
///
/// What is typed is taken without the white space around it and without the operators it
/// starts with. An item is offered where it is not deprecated, its version string starts with
/// what was typed, and `filter_fn` lets it through. Two version strings are ordered as
/// versions where both are versions, else as strings.
pub fn offer_completions_filtered<
    S: VersionScheme,
    V,
    N: Fn(&V) -> String,
    D: Fn(&V) -> bool,
    O: Offer<S, V>,
    F: Fn(&V) -> bool,
>(
    partial: &str,
    potential_versions: Vec<V>,
    name: N,
    deprecated: D,
    filter_fn: F,
) -> (r: Vec<O>)
    requires
        forall|x: &V| call_requires(name, (x,)),
        forall|x: &V| call_requires(deprecated, (x,)),
        forall|x: &V| call_requires(filter_fn, (x,)),
    ensures
        exists|entries: Seq<(Seq<char>, bool)>, accepted: Seq<bool>, order: Seq<usize>| #[trigger]
            completes::<S, V, N, D, O, _>(
                partial@,
                potential_versions@,
                name,
                deprecated,
                filter_fn,
                entries,
                accepted,
                order,
                r@,
            ),
{
    let ghost pool = potential_versions@;
    let n = potential_versions.len();
    let prefix = S::strip_operators(partial);
    let prefix_chars = chars_of(prefix.as_str());
    let mut strings: Vec<String> = Vec::new();
    let mut keep: Vec<bool> = Vec::new();
    let ghost mut entries: Seq<(Seq<char>, bool)> = Seq::empty();
    let mut i: usize = 0;
    while i < n
        invariant
            i <= n,
            n == pool.len(),
            pool == potential_versions@,
            forall|x: &V| call_requires(filter_fn, (x,)),
            forall|x: &V| call_requires(name, (x,)),
            forall|x: &V| call_requires(deprecated, (x,)),
            prefix_chars@ == S::bare_prefix(partial@),
            strings.len() == i,
            keep.len() == i,
            entries.len() == i,
            forall|k: int|
                0 <= k < i ==> describes(name, deprecated, pool[k], #[trigger] entries[k]),
            forall|k: int| 0 <= k < i ==> (#[trigger] strings@[k])@ == entries[k].0,
            forall|k: int|
                0 <= k < i ==> #[trigger] admits(
                    prefix_chars@,
                    pool[k],
                    entries[k],
                    filter_fn,
                    keep@[k],
                ),
        decreases n - i,
    {
        let item = &potential_versions[i];
        let raw = name(item);
        let is_deprecated = deprecated(item);
        let ghost entry = (raw@, is_deprecated);
        proof {
            assert(call_ensures(name, (item,), raw) && raw@ == entry.0);
            assert(describes(name, deprecated, *item, entry));
            entries = entries.push(entry);
        }
        let verdict = is_offered(&prefix_chars, raw.as_str(), is_deprecated) && filter_fn(item);
        assert(admits(prefix_chars@, pool[i as int], entry, filter_fn, verdict));
        strings.push(raw);
        keep.push(verdict);
        i = i + 1;
    }
    assert(texts(strings@) =~= raws(entries));
    let order = ranking::<S>(&strings, &keep);
    let mut slots = into_slots(potential_versions);
    let mut out: Vec<O> = Vec::new();
    let mut k: usize = 0;
    while k < order.len()
        invariant
            k <= order.len(),
            n == pool.len(),
            slots.len() == n,
            strings.len() == n,
            entries.len() == n,
            prefix@ == S::bare_prefix(partial@),
            is_ranking::<S>(raws(entries), keep@, order@),
            forall|m: int| 0 <= m < n ==> (#[trigger] strings@[m])@ == entries[m].0,
            forall|j: int|
                k <= j < order.len() ==> slots@[#[trigger] order@[j] as int] == Some(
                    pool[order@[j] as int],
                ),
            out.len() == k,
            forall|j: int|
                0 <= j < k ==> offers_item::<S, V, O>(
                    prefix@,
                    pool[order@[j] as int],
                    entries[order@[j] as int],
                    #[trigger] out@[j],
                ),
        decreases order.len() - k,
    {
        let at = order[k];
        assert(order@[k as int] < raws(entries).len());
        let ghost before = slots@;
        let taken = take_at(&mut slots, at);
        proof {
            assert forall|j: int| k + 1 <= j < order.len() implies slots@[#[trigger] order@[j] as int]
                == Some(pool[order@[j] as int]) by {
                assert(order@[j] != order@[k as int]);
                assert(before[order@[j] as int] == Some(pool[order@[j] as int]));
            }
        }
        match taken {
            Some(item) => {
                let raw = strings[at].clone();
                let core = trim(raw.as_str());
                let offer = O::build(
                    S::parse(prefix.as_str()),
                    prefix.clone(),
                    S::parse(core.as_str()),
                    raw,
                    item,
                );
                assert(offers_item::<S, V, O>(prefix@, pool[at as int], entries[at as int], offer));
                out.push(offer);
            },
            None => {
                assert(false);
            },
        }
        k = k + 1;
    }
    assert(completes::<S, V, N, D, O, _>(
        partial@,
        pool,
        name,
        deprecated,
        filter_fn,
        entries,
        keep@,
        order@,
        out@,
    ));
    out
}

/// Whether `r` is what is offered for completion of `partial` from `pool` where nothing is
/// filtered out: the items said `entries` of themselves, and `order` is the order of the offer.
pub open spec fn completes_unfiltered<
    S: VersionScheme,
    V,
    N: Fn(&V) -> String,
    D: Fn(&V) -> bool,
    O: Offer<S, V>,
>(
    partial: Seq<char>,
    pool: Seq<V>,
    name: N,
    deprecated: D,
    entries: Seq<(Seq<char>, bool)>,
    order: Seq<usize>,
    r: Seq<O>,
) -> bool {
    let prefix = S::bare_prefix(partial);
    &&& entries.len() == pool.len()
    &&& forall|i: int|
        0 <= i < pool.len() ==> describes(name, deprecated, pool[i], #[trigger] entries[i])
    &&& is_ranking::<S>(raws(entries), offers(prefix, entries), order)
    &&& r.len() == order.len()
    &&& forall|k: int|
        0 <= k < r.len() ==> offers_item::<S, V, O>(
            prefix,
            pool[order[k] as int],
            entries[order[k] as int],
            #[trigger] r[k],
        )
}

/// The versions of `potential_versions` that complete the partly typed `partial`, the latest
/// first: [`offer_completions_filtered`] with a filter that lets every version
/// through.
pub fn offer_completions<
    S: VersionScheme,
    V,
    N: Fn(&V) -> String,
    D: Fn(&V) -> bool,
    O: Offer<S, V>,
>(partial: &str, potential_versions: Vec<V>, name: N, deprecated: D) -> (r: Vec<O>)
    requires
        forall|x: &V| call_requires(name, (x,)),
        forall|x: &V| call_requires(deprecated, (x,)),
    ensures
        exists|entries: Seq<(Seq<char>, bool)>, order: Seq<usize>| #[trigger]
            completes_unfiltered::<S, V, N, D, O>(
                partial@,
                potential_versions@,
                name,
                deprecated,
                entries,
                order,
                r@,
            ),
{
    let every = |x: &V| -> (b: bool)
        ensures
            b,
        { true };
    let r = offer_completions_filtered::<S, V, N, D, O, _>(
        partial,
        potential_versions,
        name,
        deprecated,
        every,
    );
    proof {
        let (entries, accepted, order) = choose|
            entries: Seq<(Seq<char>, bool)>,
            accepted: Seq<bool>,
            order: Seq<usize>,
        | #[trigger]
            completes::<S, V, N, D, O, _>(
                partial@,
                potential_versions@,
                name,
                deprecated,
                every,
                entries,
                accepted,
                order,
                r@,
            );
        let prefix = S::bare_prefix(partial@);
        let all = offers(prefix, entries);
        assert(accepted =~= all) by {
            assert forall|i: int| 0 <= i < accepted.len() implies accepted[i] == all[i] by {
                assert(admits(prefix, potential_versions@[i], entries[i], every, accepted[i]));
            }
        }
        assert(completes_unfiltered::<S, V, N, D, O>(
            partial@,
            potential_versions@,
            name,
            deprecated,
            entries,
            order,
            r@,
        ));
    }
    r
}

/// No item is chosen that says of itself that it is deprecated, whatever the pool and the
/// filter.
pub proof fn lemma_chosen_is_not_deprecated<
    S: VersionScheme,
    V,
    N: Fn(&V) -> String,
    D: Fn(&V) -> bool,
    R: Chosen<S, V>,
    F: Fn(&R) -> bool,
>(
    reference: Seq<char>,
    pool: Seq<V>,
    name: N,
    deprecated: D,
    filter_fn: F,
    entries: Seq<(Seq<char>, bool)>,
    accepted: Seq<bool>,
    x: R,
)
    requires
        selects(reference, pool, name, deprecated, filter_fn, entries, accepted, Some(x)),
    ensures
        call_ensures(deprecated, (&x.chosen_item(),), false),
{
    let w = choose|w: int| #[trigger]
        is_latest::<S>(cores(entries), accepted, w) && records::<S, V, R>(
            reference,
            pool[w],
            entries[w],
            x,
        );
    assert(describes(name, deprecated, pool[w], entries[w]));
}

/// No item is offered for completion that says of itself that it is deprecated, whatever the
/// pool and the filter.
pub proof fn lemma_offered_is_not_deprecated<
    S: VersionScheme,
    V,
    N: Fn(&V) -> String,
    D: Fn(&V) -> bool,
    O: Offer<S, V>,
    F: Fn(&V) -> bool,
>(
    partial: Seq<char>,
    pool: Seq<V>,
    name: N,
    deprecated: D,
    filter_fn: F,
    entries: Seq<(Seq<char>, bool)>,
    accepted: Seq<bool>,
    order: Seq<usize>,
    r: Seq<O>,
    k: int,
)
    requires
        completes(partial, pool, name, deprecated, filter_fn, entries, accepted, order, r),
        0 <= k < r.len(),
    ensures
        call_ensures(deprecated, (&r[k].offered_item(),), false),
{
    let m = order[k] as int;
    assert(order[k] < raws(entries).len());
    assert(accepted[m]);
    assert(admits(S::bare_prefix(partial), pool[m], entries[m], filter_fn, accepted[m]));
    assert(describes(name, deprecated, pool[m], entries[m]));
    assert(offers_item::<S, V, O>(S::bare_prefix(partial), pool[m], entries[m], r[k]));
}

/// Choosing again keeps the choice. Where `x` records how `item` stands to `reference`, and
/// `item` says of itself what it said then (`entries[0]`), the latest version of a pool that
/// holds nothing but `item` is that of `item`, and it stands to the reference as `x` says.
pub proof fn lemma_choice_is_chosen_again<
    S: VersionScheme,
    V,
    N: Fn(&V) -> String,
    D: Fn(&V) -> bool,
    R: Chosen<S, V>,
>(
    reference: Seq<char>,
    item: V,
    name: N,
    deprecated: D,
    entries: Seq<(Seq<char>, bool)>,
    x: R,
    r: Option<R>,
)
    requires
        records::<S, V, R>(reference, item, entries[0], x),
        selects_unfiltered::<S, V, N, D, R>(reference, seq![item], name, deprecated, entries, r),
    ensures
        r is Some,
        r->0.chosen_item() == item,
        r->0.reference_version() == x.reference_version(),
        r->0.chosen_standing() == x.chosen_standing(),
{
    assert(eligible::<S>(reference, entries)[0]);
}

/// Choosing again with the choice as the reference keeps it too. Where `x` records a version
/// of `item`, `again` reads as that version, and `item` says of itself what it said then
/// (`entries[0]`), the latest version that a pool of `item` alone holds for `again` is that
/// of `item`, and it is found to be the reference exactly.
pub proof fn lemma_choice_as_reference_is_kept<
    S: VersionScheme,
    V,
    N: Fn(&V) -> String,
    D: Fn(&V) -> bool,
    R: Chosen<S, V>,
>(
    reference: Seq<char>,
    again: Seq<char>,
    item: V,
    name: N,
    deprecated: D,
    entries: Seq<(Seq<char>, bool)>,
    x: R,
    r: Option<R>,
)
    requires
        records::<S, V, R>(reference, item, entries[0], x),
        S::version_of(trimmed(again)) == Some(x.chosen_standing().version),
        selects_unfiltered::<S, V, N, D, R>(again, seq![item], name, deprecated, entries, r),
    ensures
        r is Some,
        r->0.chosen_item() == item,
        r->0.reference_version() == x.chosen_standing().version,
        r->0.chosen_standing() == (Standing {
            version: x.chosen_standing().version,
            exact: true,
            compatible: true,
        }),
{
    lemma_choice_is_kept::<S>(again, entries[0].0);
    assert(eligible::<S>(again, entries)[0]);
}

/// Whether `item` says the same of itself whenever it is asked: its version string and
/// whether it is deprecated.
pub open spec fn answers_steadily<V, N: Fn(&V) -> String, D: Fn(&V) -> bool>(
    name: N,
    deprecated: D,
    item: V,
) -> bool {
    &&& forall|a: String, b: String|
        #![trigger call_ensures(name, (&item,), a), call_ensures(name, (&item,), b)]
        call_ensures(name, (&item,), a) && call_ensures(name, (&item,), b) ==> a@ == b@
    &&& forall|a: bool, b: bool|
        #![trigger call_ensures(deprecated, (&item,), a), call_ensures(deprecated, (&item,), b)]
        call_ensures(deprecated, (&item,), a) && call_ensures(deprecated, (&item,), b) ==> a == b
}

/// What an item that answers steadily said when it was chosen, it says when it is asked
/// again.
proof fn lemma_steady_answers<
    S: VersionScheme,
    V,
    N: Fn(&V) -> String,
    D: Fn(&V) -> bool,
    R: Chosen<S, V>,
>(
    reference: Seq<char>,
    pool: Seq<V>,
    name: N,
    deprecated: D,
    entries: Seq<(Seq<char>, bool)>,
    x: R,
    again: (Seq<char>, bool),
)
    requires
        selects_unfiltered::<S, V, N, D, R>(reference, pool, name, deprecated, entries, Some(x)),
        answers_steadily(name, deprecated, x.chosen_item()),
        describes(name, deprecated, x.chosen_item(), again),
    ensures
        records::<S, V, R>(reference, x.chosen_item(), again, x),
{
    let w = choose|w: int| #[trigger]
        is_latest_entry::<S>(reference, entries, Some(w)) && records::<S, V, R>(
            reference,
            pool[w],
            entries[w],
            x,
        );
    let item = x.chosen_item();
    assert(describes(name, deprecated, pool[w], entries[w]));
    let first = choose|raw: String| #[trigger]
        call_ensures(name, (&item,), raw) && raw@ == entries[w].0;
    let second = choose|raw: String| #[trigger]
        call_ensures(name, (&item,), raw) && raw@ == again.0;
    assert(first@ == second@);
    assert(entries[w].1 == again.1);
    assert(entries[w] == again);
}

/// The winner wins again. Where `x` is the latest version of `pool` for `reference`, and its
/// item answers steadily, the latest version of a pool that holds nothing but that item is
/// the same version of the same item, and it stands to the reference as `x` says.
pub proof fn lemma_winner_wins_again<
    S: VersionScheme,
    V,
    N: Fn(&V) -> String,
    D: Fn(&V) -> bool,
    R: Chosen<S, V>,
>(
    reference: Seq<char>,
    pool: Seq<V>,
    name: N,
    deprecated: D,
    entries: Seq<(Seq<char>, bool)>,
    x: R,
    entries_again: Seq<(Seq<char>, bool)>,
    r: Option<R>,
)
    requires
        selects_unfiltered::<S, V, N, D, R>(reference, pool, name, deprecated, entries, Some(x)),
        answers_steadily(name, deprecated, x.chosen_item()),
        selects_unfiltered::<S, V, N, D, R>(
            reference,
            seq![x.chosen_item()],
            name,
            deprecated,
            entries_again,
            r,
        ),
    ensures
        r is Some,
        r->0.chosen_item() == x.chosen_item(),
        r->0.reference_version() == x.reference_version(),
        r->0.chosen_standing() == x.chosen_standing(),
{
    let item = x.chosen_item();
    assert(seq![item][0] == item);
    assert(describes(name, deprecated, item, entries_again[0]));
    lemma_steady_answers::<S, V, N, D, R>(
        reference,
        pool,
        name,
        deprecated,
        entries,
        x,
        entries_again[0],
    );
    lemma_choice_is_chosen_again::<S, V, N, D, R>(
        reference,
        item,
        name,
        deprecated,
        entries_again,
        x,
        r,
    );
}

/// The winner wins again with its version as the reference. Where `x` is the latest version
/// of `pool` for some reference, its item answers steadily, and `again` reads as the version
/// that `x` holds, the latest version that a pool of that item alone holds for `again` is
/// the same version of the same item, and it is found to be the reference exactly.
pub proof fn lemma_winner_as_reference_wins_again<
    S: VersionScheme,
    V,
    N: Fn(&V) -> String,
    D: Fn(&V) -> bool,
    R: Chosen<S, V>,
>(
    reference: Seq<char>,
    pool: Seq<V>,
    name: N,
    deprecated: D,
    entries: Seq<(Seq<char>, bool)>,
    x: R,
    again: Seq<char>,
    entries_again: Seq<(Seq<char>, bool)>,
    r: Option<R>,
)
    requires
        selects_unfiltered::<S, V, N, D, R>(reference, pool, name, deprecated, entries, Some(x)),
        answers_steadily(name, deprecated, x.chosen_item()),
        S::version_of(trimmed(again)) == Some(x.chosen_standing().version),
        selects_unfiltered::<S, V, N, D, R>(
            again,
            seq![x.chosen_item()],
            name,
            deprecated,
            entries_again,
            r,
        ),
    ensures
        r is Some,
        r->0.chosen_item() == x.chosen_item(),
        r->0.reference_version() == x.chosen_standing().version,
        r->0.chosen_standing() == (Standing {
            version: x.chosen_standing().version,
            exact: true,
            compatible: true,
        }),
{
    let item = x.chosen_item();
    assert(seq![item][0] == item);
    assert(describes(name, deprecated, item, entries_again[0]));
    lemma_steady_answers::<S, V, N, D, R>(
        reference,
        pool,
        name,
        deprecated,
        entries,
        x,
        entries_again[0],
    );
    lemma_choice_as_reference_is_kept::<S, V, N, D, R>(
        reference,
        again,
        item,
        name,
        deprecated,
        entries_again,
        x,
        r,
    );
}

} // verus!
