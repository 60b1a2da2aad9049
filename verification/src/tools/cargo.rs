//! What is found wrong with a dependency of a `Cargo.toml`.
use crate::clients::crates::LocalMetadata;
use crate::text::{
    ascii_lowered, decimal, lemma_lex_antisymmetric, lemma_lex_reflexive,
    lemma_lex_total, lemma_lex_transitive, lex_le, lexicographic_le, lowered, push_decimal,
    same_text, string_of, trimmed,
};
use crate::vecs::marked_places;
use crate::scheme::{cores, is_latest, standing};
use crate::version::{
    describes, extract_latest_version_filtered, judges, records, satisfies, selects,
    semver_satisfies, LatestVersion, Semver, VersionView, Versioned,
};
use crate::version_req::{
    candidates, candidates_fit, is_minimum_of, semver_parse_requirement, semver_requirement,
    VersionReqExt,
};
use vstd::prelude::*;

verus! {

/// A version of a crate in the index of the registry, as far as the library reads it.
#[derive(Debug, Clone, PartialEq, Eq)]
pub struct IndexVersion {
    pub version: String,
    pub yanked: bool,
}

impl Versioned for IndexVersion {
    fn raw_version_string(&self) -> (r: String)
        ensures
            r@ == self.version@,
    {
        self.version.clone()
    }
}

/// What is found of the version that a dependency asks for.
#[derive(Debug, Clone, PartialEq, Eq)]
pub enum VersionFinding {
    /// What is asked for is no requirement from which a lowest version can be derived.
    NotARequirement,
    /// No version of the crate meets the requirement.
    NoMatch,
    /// The latest version of the crate that is not yanked does not meet the requirement,
    /// whose lowest version is `current`.
    Newer { current: String, latest: String },
    /// There is nothing to say.
    Nothing,
}

/// Whether `requirement` lets the version `v` in.
pub open spec fn lets_in(requirement: Seq<char>, v: IndexVersion) -> bool {
    semver_satisfies(requirement, trimmed(v.version@))
}

/// Whether a lowest version can be derived from `requirement`.
pub open spec fn has_minimum(requirement: Seq<char>) -> bool {
    semver_requirement(requirement) matches Some(cs) && candidates_fit(cs)
}

/// The place of the first version that `requirement` lets in.
pub fn first_match(requirement: &str, metas: &Vec<IndexVersion>) -> (r: Option<usize>)
    ensures
        match r {
            Some(i) => i < metas@.len() && lets_in(requirement@, metas@[i as int]) && forall|k: int|
                0 <= k < i ==> !lets_in(requirement@, #[trigger] metas@[k]),
            None => forall|k: int|
                0 <= k < metas@.len() ==> !lets_in(requirement@, #[trigger] metas@[k]),
        },
{
    let mut i: usize = 0;
    while i < metas.len()
        invariant
            i <= metas.len(),
            forall|k: int| 0 <= k < i ==> !lets_in(requirement@, #[trigger] metas@[k]),
        decreases metas.len() - i,
    {
        if satisfies(requirement, metas[i].version.as_str()) {
            return Some(i);
        }
        i = i + 1;
    }
    None
}

/// What the versions of the index say of themselves: none is deprecated.
pub open spec fn index_entries(metas: Seq<IndexVersion>) -> Seq<(Seq<char>, bool)> {
    Seq::new(metas.len(), |i: int| (metas[i].version@, false))
}

/// For each version of the index, whether it may be pointed out as the latest next to the
/// version `current`: it can be chosen, and it is not yanked or is `current` itself.
pub open spec fn usable(current: Seq<char>, metas: Seq<IndexVersion>) -> Seq<bool> {
    Seq::new(
        metas.len(),
        |i: int|
            standing::<Semver>(current, metas[i].version@, false) matches Some(st) && (
            !metas[i].yanked || st.exact),
    )
}

/// Whether `w` is the place of the latest version that may be pointed out next to `current`,
/// and `compatible` says whether `current`, read as a requirement, lets it in.
pub open spec fn latest_usable(
    current: Seq<char>,
    metas: Seq<IndexVersion>,
    w: int,
    compatible: bool,
    text: Seq<char>,
) -> bool {
    &&& is_latest::<Semver>(cores(index_entries(metas)), usable(current, metas), w)
    &&& standing::<Semver>(current, metas[w].version@, false) matches Some(st) && st.compatible
        == compatible && st.version.text() == text
}

/// Whether `r` is what looking for the latest version next to `current` comes to: the latest
/// version is pointed out where `current`, read as a requirement, does not let it in.
pub open spec fn points_out(current: Seq<char>, metas: Seq<IndexVersion>, r: VersionFinding) -> bool {
    match r {
        VersionFinding::Newer { current: c, latest } => c@ == current && exists|w: int| #[trigger]
            latest_usable(current, metas, w, false, latest@),
        VersionFinding::Nothing => (forall|i: int|
            0 <= i < metas.len() ==> !#[trigger] usable(current, metas)[i]) || exists|
            w: int,
            text: Seq<char>,
        | #[trigger] latest_usable(current, metas, w, true, text),
        _ => false,
    }
}

/// Decides what to say of the version that a dependency asks for, given the versions of the
/// crate in the index.
///
/// Nothing is said of what is no requirement. Else it is an error that no version meets the
/// requirement. Else the latest version is looked for, next to the lowest version of the
/// requirement and among the versions that are not yanked or are that lowest version itself,
/// and pointed out where the lowest version, read as a requirement, does not let it in.
pub fn check_version(requirement: &str, metas: Vec<IndexVersion>) -> (r: VersionFinding)
    ensures
        r is NotARequirement <==> !has_minimum(requirement@),
        r is NoMatch <==> has_minimum(requirement@) && forall|k: int|
            0 <= k < metas@.len() ==> !lets_in(requirement@, #[trigger] metas@[k]),
        r is Newer || r is Nothing ==> exists|v: VersionView|
            is_minimum_of(v, candidates(semver_requirement(requirement@)->0)) && #[trigger] points_out(
                v.text(),
                metas@,
                r,
            ),
{
    let req = match semver_parse_requirement(requirement) {
        Some(req) => req,
        None => {
            return VersionFinding::NotARequirement;
        },
    };
    assert(req.candidates() == candidates(req.comparators@));
    let minimum = match req.minimum_version() {
        Some(minimum) => minimum,
        None => {
            return VersionFinding::NotARequirement;
        },
    };
    let current = minimum.to_string();
    if first_match(requirement, &metas).is_none() {
        return VersionFinding::NoMatch;
    }
    let usable_one = |v: &LatestVersion<IndexVersion>| -> (b: bool)
        ensures
            b == (!v.item.yanked || v.is_exactly_compatible),
        { !v.item.yanked || v.is_exactly_compatible };
    let found = extract_latest_version_filtered(current.as_str(), metas, usable_one);
    let ghost mut place: int = 0;
    proof {
        let (entries, accepted) = choose|entries: Seq<(Seq<char>, bool)>, accepted: Seq<bool>| #[trigger]
            selects(current@, metas@, usable_one, entries, accepted, found);
        assert(entries =~= index_entries(metas@)) by {
            assert forall|i: int| 0 <= i < entries.len() implies entries[i] == index_entries(
                metas@,
            )[i] by {
                assert(describes(metas@[i], entries[i]));
            }
        }
        assert(accepted =~= usable(current@, metas@)) by {
            assert forall|i: int| 0 <= i < accepted.len() implies accepted[i] == usable(
                current@,
                metas@,
            )[i] by {
                assert(judges(current@, metas@[i], entries[i], usable_one, accepted[i]));
            }
        }
        if found is Some {
            let x = found->0;
            place = choose|w: int| #[trigger]
                is_latest::<Semver>(cores(entries), accepted, w) && records(
                    current@,
                    metas@[w],
                    entries[w],
                    x,
                );
            assert(latest_usable(
                current@,
                metas@,
                place,
                x.is_semver_compatible,
                x.item_version@.text(),
            ));
        } else {
            assert(forall|i: int|
                0 <= i < metas@.len() ==> !#[trigger] usable(current@, metas@)[i]);
        }
    }
    match found {
        Some(latest) => if latest.is_semver_compatible {
            assert(latest_usable(current@, metas@, place, true, latest.item_version@.text()));
            assert(points_out(minimum@.text(), metas@, VersionFinding::Nothing));
            VersionFinding::Nothing
        } else {
            let text = latest.item_version.to_string();
            let ghost lowest = minimum@.text();
            assert(current@ == lowest);
            assert(latest_usable(lowest, metas@, place, false, text@));
            let r = VersionFinding::Newer { current, latest: text };
            assert(r->current@ == lowest && r->latest@ == text@);
            assert(points_out(lowest, metas@, r));
            r
        },
        None => {
            assert(points_out(minimum@.text(), metas@, VersionFinding::Nothing));
            VersionFinding::Nothing
        },
    }
}

/// What is found of the version that a dependency on a crate beside the manifest asks for.
#[derive(Debug, Clone, Copy, PartialEq, Eq)]
pub enum LocalFinding {
    /// There is nothing to say: what is asked for is no requirement, or the crate has no
    /// valid version, or its version meets the requirement.
    Nothing,
    /// The version of the crate does not meet the requirement.
    Mismatch,
}

/// Decides what to say of the version that a dependency on a crate beside the manifest asks
/// for.
pub fn check_local_version(requirement: &str, local: &LocalMetadata) -> (r: LocalFinding)
    ensures
        r is Mismatch <==> semver_requirement(requirement@) is Some && (local.version matches Some(
            v,
        ) && !semver_satisfies(requirement@, trimmed(v@.text()))),
{
    if semver_parse_requirement(requirement).is_none() {
        return LocalFinding::Nothing;
    }
    match &local.version {
        Some(v) => {
            let text = v.to_string();
            if satisfies(requirement, text.as_str()) {
                LocalFinding::Nothing
            } else {
                LocalFinding::Mismatch
            }
        },
        None => LocalFinding::Nothing,
    }
}

/// Whether `known` holds `feature`, letter for letter.
pub open spec fn is_known(feature: Seq<char>, known: Seq<String>) -> bool {
    exists|k: int| 0 <= k < known.len() && (#[trigger] known[k])@ == feature
}

fn knows(known: &Vec<String>, feature: &str) -> (r: bool)
    ensures
        r == is_known(feature@, known@),
{
    let mut k: usize = 0;
    while k < known.len()
        invariant
            k <= known.len(),
            forall|m: int| 0 <= m < k ==> (#[trigger] known@[m])@ != feature@,
        decreases known.len() - k,
    {
        if same_text(known[k].as_str(), feature) {
            return true;
        }
        k = k + 1;
    }
    false
}

/// The places of the features that the crate does not know, in rising order.
pub fn unknown_features(features: &Vec<String>, known: &Vec<String>) -> (r: Vec<usize>)
    ensures
        forall|k: int| 0 <= k < r@.len() ==> #[trigger] r@[k] < features@.len(),
        forall|k: int, m: int| 0 <= k < m < r@.len() ==> r@[k] < r@[m],
        forall|i: int|
            0 <= i < features@.len() ==> (r@.contains(i as usize) <==> !is_known(
                (#[trigger] features@[i])@,
                known@,
            )),
{
    let mut marks: Vec<bool> = Vec::new();
    let mut i: usize = 0;
    while i < features.len()
        invariant
            i <= features.len(),
            marks@.len() == i,
            forall|j: int| 0 <= j < i ==> #[trigger] marks@[j] == !is_known(features@[j]@, known@),
        decreases features.len() - i,
    {
        marks.push(!knows(known, features[i].as_str()));
        i = i + 1;
    }
    let r = marked_places(&marks);
    assert forall|i: int| 0 <= i < features@.len() implies (r@.contains(i as usize) <==> !is_known(
        (#[trigger] features@[i])@,
        known@,
    )) by {
        if r@.contains(i as usize) {
            let w = choose|w: int| 0 <= w < r@.len() && r@[w] == i as usize;
            assert(marks@[r@[w] as int]);
        }
        if marks@[i] {
            assert(r@.contains(i as usize));
        }
    }
    r
}

/// `n` zeros.
pub open spec fn zeros(n: nat) -> Seq<char> {
    Seq::new(n, |i: int| '0')
}

/// The text by which the item at the place `index` of a list is sorted: the place in decimal,
/// with zeros before it up to five characters.
pub open spec fn sort_text_of(index: nat) -> Seq<char> {
    if decimal(index).len() >= 5 {
        decimal(index)
    } else {
        zeros((5 - decimal(index).len()) as nat) + decimal(index)
    }
}

/// The text by which the item at the place `index` of a list is sorted.
pub fn sort_text(index: usize) -> (r: String)
    ensures
        r@ == sort_text_of(index as nat),
{
    let mut digits: Vec<char> = Vec::new();
    push_decimal(&mut digits, index as u64);
    assert(digits@ =~= decimal(index as nat));
    let mut out: Vec<char> = Vec::new();
    let mut n: usize = digits.len();
    while n < 5
        invariant
            out@.len() + digits.len() == n,
            n <= 5 || n == digits.len(),
            out@ == zeros(out@.len()),
        decreases 5 - n,
    {
        out.push('0');
        n = n + 1;
        assert(out@ =~= zeros(out@.len()));
    }
    let ghost pad = out@;
    let mut i: usize = 0;
    while i < digits.len()
        invariant
            i <= digits.len(),
            out@ == pad + digits@.subrange(0, i as int),
        decreases digits.len() - i,
    {
        out.push(digits[i]);
        i = i + 1;
        assert(digits@.subrange(0, i as int) =~= digits@.subrange(0, i - 1).push(digits@[i - 1]));
    }
    assert(digits@.subrange(0, i as int) =~= digits@);
    assert(out@ =~= sort_text_of(index as nat));
    let r = string_of(&out, 0, out.len());
    assert(out@.subrange(0, out.len() as int) =~= out@);
    r
}

/// The names by which packages are sorted: in lower case, as far as ASCII goes.
pub open spec fn sort_keys(names: Seq<String>) -> Seq<Seq<char>> {
    Seq::new(names.len(), |i: int| ascii_lowered(names[i]@))
}

/// Whether `a` comes before `b` in the order of strings and is another.
pub open spec fn comes_before(a: Seq<char>, b: Seq<char>) -> bool {
    lex_le(a, b) && a != b
}

/// The name at the place `k` of an order.
pub open spec fn key_at(keys: Seq<Seq<char>>, order: Seq<usize>, k: int) -> Seq<char> {
    keys[order[k] as int]
}

/// Whether `order` lists places among the first `n` names in rising order of the names, each
/// name once, at the first place where it occurs, and none of the first `n` names is left
/// out.
pub open spec fn is_sorted_set(keys: Seq<Seq<char>>, order: Seq<usize>, n: int) -> bool {
    &&& forall|k: int| 0 <= k < order.len() ==> #[trigger] order[k] < n
    &&& forall|a: int, b: int|
        0 <= a < b < order.len() ==> comes_before(
            #[trigger] key_at(keys, order, a),
            #[trigger] key_at(keys, order, b),
        )
    &&& forall|k: int, m: int|
        0 <= k < order.len() && 0 <= m < order[k] ==> #[trigger] keys[m] != #[trigger] key_at(
            keys,
            order,
            k,
        )
    &&& forall|m: int| 0 <= m < n ==> has_key(keys, order, #[trigger] keys[m])
}

/// Whether the name `key` stands in an order.
pub open spec fn has_key(keys: Seq<Seq<char>>, order: Seq<usize>, key: Seq<char>) -> bool {
    exists|k: int| 0 <= k < order.len() && #[trigger] key_at(keys, order, k) == key
}

/// Whether `order` lists the places of the first `limit` names in rising order, each name
/// once, whatever the case of its letters, at the first place where it occurs.
pub open spec fn is_merged(keys: Seq<Seq<char>>, limit: nat, order: Seq<usize>) -> bool {
    &&& order.len() <= limit
    &&& forall|k: int| 0 <= k < order.len() ==> #[trigger] order[k] < keys.len()
    &&& forall|a: int, b: int|
        0 <= a < b < order.len() ==> comes_before(
            #[trigger] key_at(keys, order, a),
            #[trigger] key_at(keys, order, b),
        )
    &&& forall|k: int, m: int|
        0 <= k < order.len() && 0 <= m < order[k] ==> #[trigger] keys[m] != #[trigger] key_at(
            keys,
            order,
            k,
        )
    &&& forall|i: int|
        0 <= i < keys.len() ==> has_key(keys, order, #[trigger] keys[i]) || (order.len() == limit
            && forall|k: int|
            0 <= k < order.len() ==> comes_before(#[trigger] key_at(keys, order, k), keys[i]))
}

/// The order of strings that come before one another is transitive.
proof fn lemma_comes_before_transitive(a: Seq<char>, b: Seq<char>, c: Seq<char>)
    requires
        comes_before(a, b),
        lex_le(b, c),
    ensures
        comes_before(a, c),
{
    lemma_lex_transitive(a, b, c);
    if a == c {
        lemma_lex_antisymmetric(a, b);
    }
}

/// A name that is in the order already leaves the order as it is.
proof fn lemma_skip(keys: Seq<Seq<char>>, order: Seq<usize>, i: int, j: int)
    requires
        is_sorted_set(keys, order, i),
        0 <= j < order.len(),
        key_at(keys, order, j) == keys[i],
    ensures
        is_sorted_set(keys, order, i + 1),
{
    assert forall|m: int| 0 <= m < i + 1 implies has_key(keys, order, #[trigger] keys[m]) by {
        if m == i {
            assert(key_at(keys, order, j) == keys[m]);
        }
    }
}

/// A name that is not in the order yet takes its place between the names before and after
/// it.
proof fn lemma_insert(keys: Seq<Seq<char>>, order: Seq<usize>, at: usize, j: int)
    requires
        is_sorted_set(keys, order, at as int),
        0 <= at < keys.len(),
        0 <= j <= order.len(),
        forall|a: int|
            0 <= a < j ==> comes_before(#[trigger] key_at(keys, order, a), keys[at as int]),
        j < order.len() ==> comes_before(keys[at as int], key_at(keys, order, j)),
    ensures
        is_sorted_set(keys, order.insert(j, at), at + 1),
{
    let i = at as int;
    let new = order.insert(j, at);
    assert forall|k: int| 0 <= k < new.len() implies key_at(keys, new, k) == if k < j {
        key_at(keys, order, k)
    } else if k == j {
        keys[i]
    } else {
        key_at(keys, order, k - 1)
    } && (#[trigger] new[k]) < i + 1 by {
        if k < j {
            assert(new[k] == order[k]);
        } else if k > j {
            assert(new[k] == order[k - 1]);
        }
    }
    assert forall|b: int| j <= b < order.len() implies comes_before(
        keys[i],
        #[trigger] key_at(keys, order, b),
    ) by {
        if b > j {
            assert(comes_before(key_at(keys, order, j), key_at(keys, order, b)));
            lemma_comes_before_transitive(keys[i], key_at(keys, order, j), key_at(keys, order, b));
        }
    }
    assert forall|a: int, b: int| 0 <= a < b < new.len() implies comes_before(
        #[trigger] key_at(keys, new, a),
        #[trigger] key_at(keys, new, b),
    ) by {
        assert(new[a] < i + 1 && new[b] < i + 1);
        if b == j {
            assert(comes_before(key_at(keys, order, a), keys[i]));
        } else if a == j {
            assert(comes_before(keys[i], key_at(keys, order, b - 1)));
        } else if a < j && b > j {
            assert(comes_before(key_at(keys, order, a), key_at(keys, order, b - 1)));
        } else if a < j {
            assert(comes_before(key_at(keys, order, a), key_at(keys, order, b)));
        } else {
            assert(comes_before(key_at(keys, order, a - 1), key_at(keys, order, b - 1)));
        }
    }
    assert forall|m: int| 0 <= m < i implies #[trigger] keys[m] != keys[i] by {
        assert(has_key(keys, order, keys[m]));
        let k = choose|k: int| 0 <= k < order.len() && #[trigger] key_at(keys, order, k) == keys[m];
        if k < j {
            assert(comes_before(key_at(keys, order, k), keys[i]));
        } else {
            assert(comes_before(keys[i], key_at(keys, order, k)));
        }
    }
    assert forall|k: int, m: int| 0 <= k < new.len() && 0 <= m < new[k] implies #[trigger] keys[m]
        != #[trigger] key_at(keys, new, k) by {
        assert(new[k] < i + 1);
        if k < j {
            assert(new[k] == order[k]);
            assert(keys[m] != key_at(keys, order, k));
        } else if k > j {
            assert(new[k] == order[k - 1]);
            assert(keys[m] != key_at(keys, order, k - 1));
        } else {
            assert(new[k] == i);
        }
    }
    assert forall|m: int| 0 <= m < i + 1 implies has_key(keys, new, #[trigger] keys[m]) by {
        if m < i {
            assert(has_key(keys, order, keys[m]));
            let k = choose|k: int|
                0 <= k < order.len() && #[trigger] key_at(keys, order, k) == keys[m];
            if k < j {
                assert(new[k] < i + 1);
                assert(key_at(keys, new, k) == keys[m]);
            } else {
                assert(new[k + 1] < i + 1);
                assert(key_at(keys, new, k + 1) == keys[m]);
            }
        } else {
            assert(new[j] < i + 1);
            assert(key_at(keys, new, j) == keys[m]);
        }
    }
}

/// The first `limit` of an order of all names is the merged order.
proof fn lemma_cut(keys: Seq<Seq<char>>, full: Seq<usize>, limit: nat)
    requires
        is_sorted_set(keys, full, keys.len() as int),
    ensures
        is_merged(
            keys,
            limit,
            if limit < full.len() {
                full.subrange(0, limit as int)
            } else {
                full
            },
        ),
{
    let cut = if limit < full.len() {
        full.subrange(0, limit as int)
    } else {
        full
    };
    assert forall|k: int| 0 <= k < cut.len() implies key_at(keys, cut, k) == key_at(keys, full, k)
        && #[trigger] cut[k] == full[k] by {}
    assert forall|a: int, b: int| 0 <= a < b < cut.len() implies comes_before(
        #[trigger] key_at(keys, cut, a),
        #[trigger] key_at(keys, cut, b),
    ) by {
        assert(cut[a] == full[a] && cut[b] == full[b]);
        assert(comes_before(key_at(keys, full, a), key_at(keys, full, b)));
    }
    assert forall|k: int, m: int| 0 <= k < cut.len() && 0 <= m < cut[k] implies #[trigger] keys[m]
        != #[trigger] key_at(keys, cut, k) by {
        assert(cut[k] == full[k]);
        assert(keys[m] != key_at(keys, full, k));
    }
    assert forall|i: int| 0 <= i < keys.len() implies has_key(keys, cut, #[trigger] keys[i]) || (
    cut.len() == limit && forall|k: int|
        0 <= k < cut.len() ==> comes_before(#[trigger] key_at(keys, cut, k), keys[i])) by {
        assert(has_key(keys, full, keys[i]));
        let w = choose|w: int| 0 <= w < full.len() && #[trigger] key_at(keys, full, w) == keys[i];
        if w < cut.len() {
            assert(cut[w] == full[w]);
            assert(key_at(keys, cut, w) == keys[i]);
        } else {
            assert forall|k: int| 0 <= k < cut.len() implies comes_before(
                #[trigger] key_at(keys, cut, k),
                keys[i],
            ) by {
                assert(cut[k] == full[k]);
                assert(comes_before(key_at(keys, full, k), key_at(keys, full, w)));
            }
        }
    }
}

/// The places of the packages that are offered for a name that is being typed, given the
/// names of the well-known packages followed by those that a search has brought: sorted by
/// name, each name once, and no more than `limit`.
pub fn merged_order(names: &Vec<String>, limit: usize) -> (order: Vec<usize>)
    ensures
        is_merged(sort_keys(names@), limit as nat, order@),
{
    let ghost keys = sort_keys(names@);
    let mut lower: Vec<Vec<char>> = Vec::new();
    let mut n: usize = 0;
    while n < names.len()
        invariant
            n <= names.len(),
            keys == sort_keys(names@),
            lower.len() == n,
            forall|k: int| 0 <= k < n ==> (#[trigger] lower@[k])@ == keys[k],
        decreases names.len() - n,
    {
        lower.push(lowered(names[n].as_str()));
        n = n + 1;
    }
    let mut order: Vec<usize> = Vec::new();
    let mut i: usize = 0;
    while i < names.len()
        invariant
            i <= names.len(),
            keys.len() == names.len(),
            lower.len() == names.len(),
            forall|k: int| 0 <= k < lower.len() ==> (#[trigger] lower@[k])@ == keys[k],
            is_sorted_set(keys, order@, i as int),
        decreases names.len() - i,
    {
        let mut j: usize = 0;
        while j < order.len() && !lexicographic_le(&lower[i], &lower[order[j]])
            invariant
                j <= order.len(),
                i < lower.len(),
                lower.len() == keys.len(),
                forall|k: int| 0 <= k < lower.len() ==> (#[trigger] lower@[k])@ == keys[k],
                forall|k: int| 0 <= k < order.len() ==> #[trigger] order@[k] < i,
                forall|a: int|
                    0 <= a < j ==> comes_before(#[trigger] key_at(keys, order@, a), keys[i as int]),
            decreases order.len() - j,
        {
            proof {
                let here = key_at(keys, order@, j as int);
                lemma_lex_total(keys[i as int], here);
                if here == keys[i as int] {
                    lemma_lex_reflexive(here);
                }
            }
            j = j + 1;
        }
        if j < order.len() && lexicographic_le(&lower[order[j]], &lower[i]) {
            proof {
                lemma_lex_antisymmetric(keys[i as int], key_at(keys, order@, j as int));
                lemma_skip(keys, order@, i as int, j as int);
            }
        } else {
            proof {
                if j < order.len() {
                    let next = key_at(keys, order@, j as int);
                    if keys[i as int] == next {
                        lemma_lex_reflexive(next);
                    }
                }
                lemma_insert(keys, order@, i, j as int);
            }
            order.insert(j, i);
        }
        i = i + 1;
    }
    proof {
        lemma_cut(keys, order@, limit as nat);
    }
    let ghost full = order@;
    order.truncate(limit);
    assert(order@ =~= if limit < full.len() {
        full.subrange(0, limit as int)
    } else {
        full
    });
    order
}

} // verus!
