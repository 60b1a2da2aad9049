//! What is found wrong with a dependency of a `go.mod`, and what its hover links to.
use crate::clients::golang::{find_slash, first_slash, github_prefix};
use crate::text::{
    chars_of, joined, eq_ignore_ascii_case, equal_ignoring_ascii_case, starts_with, string_of,
    strip_start, strip_start_bound, texts, trim_bounds, trimmed,
};
use crate::scheme::{cores, eligible, is_latest, standing};
use crate::version::{describes, extract_latest_version, records, selects_unfiltered, Semver};
use vstd::prelude::*;

verus! {

/// A version as the proxy writes it, without the `v`s that it starts with.
pub open spec fn without_v(version: Seq<char>) -> Seq<char> {
    strip_start(version, seq!['v'])
}

/// Takes the `v`s off the start of a version.
pub fn strip_v(version: &str) -> (r: String)
    ensures
        r@ == without_v(version@),
{
    let v = chars_of(version);
    let set = vec!['v'];
    assert(set@ =~= seq!['v']);
    assert(v@.subrange(0, v.len() as int) =~= v@);
    let a = strip_start_bound(&v, 0, v.len(), &set);
    string_of(&v, a, v.len())
}

/// What is found of the version that a dependency asks for.
#[derive(Debug, Clone, PartialEq, Eq)]
pub enum VersionFinding {
    /// The module has no version at all.
    NoVersions,
    /// The module has no such version.
    VersionMissing,
    /// The module has a later version than `current`: `latest`, written with its `v`.
    Newer { current: String, latest: String },
    /// There is nothing to say.
    Nothing,
}

/// Whether the module has the version `version`, whatever the case of letters and the `v`s
/// at the start.
pub open spec fn has_version(version: Seq<char>, versions: Seq<String>) -> bool {
    exists|i: int|
        0 <= i < versions.len() && equal_ignoring_ascii_case(
            without_v((#[trigger] versions[i])@),
            without_v(version),
        )
}

/// What the versions of a module say of themselves, without their `v`s: none is deprecated.
pub open spec fn version_entries(versions: Seq<String>) -> Seq<(Seq<char>, bool)> {
    Seq::new(versions.len(), |i: int| (without_v(versions[i]@), false))
}

/// Whether `w` is the place of the latest version that can be chosen next to `current`,
/// `exact` says whether it is written as `current` is, and `text` is how it is written.
pub open spec fn latest_at(
    current: Seq<char>,
    versions: Seq<String>,
    w: int,
    exact: bool,
    text: Seq<char>,
) -> bool {
    let entries = version_entries(versions);
    &&& is_latest::<Semver>(cores(entries), eligible::<Semver>(current, entries), w)
    &&& standing::<Semver>(current, entries[w].0, entries[w].1) matches Some(st) && st.exact
        == exact && st.version.text() == text
}

/// Whether `r` is what looking for the latest version next to `current` comes to: the latest
/// version is pointed out, with a `v` before it, where it is not `current` itself.
pub open spec fn points_out(current: Seq<char>, versions: Seq<String>, r: VersionFinding) -> bool {
    match r {
        VersionFinding::Newer { current: c, latest } => c@ == current && exists|
            w: int,
            text: Seq<char>,
        | #[trigger] latest_at(current, versions, w, false, text) && latest@ == seq!['v'] + text,
        VersionFinding::Nothing => (forall|i: int|
            0 <= i < versions.len() ==> !#[trigger] eligible::<Semver>(
                current,
                version_entries(versions),
            )[i]) || exists|w: int, text: Seq<char>| #[trigger]
            latest_at(current, versions, w, true, text),
        _ => false,
    }
}

/// Decides what to say of the version that a dependency asks for, given the versions that
/// the proxy lists for the module.
///
/// It is an error that the module has no version, or not the one asked for. Else the latest
/// version is looked for and pointed out where it is another than the one asked for.
pub fn check_version(version: &str, versions: &Vec<String>) -> (r: VersionFinding)
    ensures
        r is NoVersions <==> versions@.len() == 0,
        r is VersionMissing <==> versions@.len() > 0 && !has_version(version@, versions@),
        r is Newer || r is Nothing ==> points_out(without_v(version@), versions@, r),
{
    if versions.len() == 0 {
        return VersionFinding::NoVersions;
    }
    let current = strip_v(version);
    let wanted = chars_of(current.as_str());
    let mut stripped: Vec<String> = Vec::new();
    let mut found = false;
    let mut i: usize = 0;
    while i < versions.len()
        invariant
            i <= versions.len(),
            wanted@ == without_v(version@),
            stripped@.len() == i,
            forall|k: int| 0 <= k < i ==> (#[trigger] stripped@[k])@ == without_v(versions@[k]@),
            found == exists|k: int|
                0 <= k < i && equal_ignoring_ascii_case(
                    without_v((#[trigger] versions@[k])@),
                    without_v(version@),
                ),
        decreases versions.len() - i,
    {
        let bare = strip_v(versions[i].as_str());
        if eq_ignore_ascii_case(&chars_of(bare.as_str()), &wanted) {
            found = true;
        }
        stripped.push(bare);
        i = i + 1;
    }
    if !found {
        return VersionFinding::VersionMissing;
    }
    let ghost pool = stripped@;
    let latest = extract_latest_version(current.as_str(), stripped);
    let ghost mut place: int = 0;
    let ghost lowest = without_v(version@);
    proof {
        let entries = choose|entries: Seq<(Seq<char>, bool)>| #[trigger]
            selects_unfiltered(current@, pool, entries, latest);
        assert(entries =~= version_entries(versions@)) by {
            assert forall|i: int| 0 <= i < entries.len() implies entries[i] == version_entries(
                versions@,
            )[i] by {
                assert(describes(pool[i], entries[i]));
            }
        }
        if latest is Some {
            let x = latest->0;
            place = choose|w: int| #[trigger]
                is_latest::<Semver>(cores(entries), eligible::<Semver>(current@, entries), w)
                    && records(current@, pool[w], entries[w], x);
            assert(latest_at(
                lowest,
                versions@,
                place,
                x.is_exactly_compatible,
                x.item_version@.text(),
            ));
        }
    }
    match latest {
        Some(latest) => if latest.is_exactly_compatible {
            assert(latest_at(lowest, versions@, place, true, latest.item_version@.text()));
            assert(points_out(lowest, versions@, VersionFinding::Nothing));
            VersionFinding::Nothing
        } else {
            let text = latest.item_version.to_string();
            proof {
                reveal_strlit("v");
            }
            let shown = joined("v", text.as_str());
            assert(shown@ =~= seq!['v'] + text@);
            assert(latest_at(lowest, versions@, place, false, text@));
            let r = VersionFinding::Newer { current, latest: shown };
            assert(r->current@ == lowest && r->latest@ == seq!['v'] + text@);
            assert(points_out(lowest, versions@, r));
            r
        },
        None => {
            assert(points_out(lowest, versions@, VersionFinding::Nothing));
            VersionFinding::Nothing
        },
    }
}

/// The address of the repository of a module on GitHub: the path up to its third `/`, after
/// `https://`. `None` where the path starts otherwise or holds one `/` only.
pub open spec fn repository_link_of(path: Seq<char>) -> Option<Seq<char>> {
    let i = first_slash(path, 11);
    if github_prefix().is_prefix_of(path) && i < path.len() {
        Some("https://"@ + path.subrange(0, first_slash(path, i + 1)))
    } else {
        None
    }
}

/// The address of the repository of a module, where the module lives on GitHub.
pub fn repository_link(path: &str) -> (r: Option<String>)
    ensures
        match r {
            Some(link) => repository_link_of(path@) == Some(link@),
            None => repository_link_of(path@) is None,
        },
{
    let v = chars_of(path);
    let prefix = vec!['g', 'i', 't', 'h', 'u', 'b', '.', 'c', 'o', 'm', '/'];
    assert(prefix@ =~= github_prefix());
    if !starts_with(&v, &prefix) {
        return None;
    }
    let i = find_slash(&v, 11);
    if i >= v.len() {
        return None;
    }
    let j = find_slash(&v, i + 1);
    let root = string_of(&v, 0, j);
    Some(joined("https://", root.as_str()))
}

/// `line` as a list of its own, or nothing where it is empty.
pub open spec fn kept(line: Seq<char>) -> Seq<Seq<char>> {
    if line.len() > 0 {
        seq![line]
    } else {
        Seq::empty()
    }
}

/// The lines of `s` that hold more than white space, each without the white space around it:
/// those that start at `start` or after it, where the line that starts at `start` is known to
/// hold no line feed before `pos`.
pub open spec fn lines_from(s: Seq<char>, start: int, pos: int) -> Seq<Seq<char>>
    decreases s.len() - pos,
{
    if pos >= s.len() {
        kept(trimmed(s.subrange(start, s.len() as int)))
    } else if s[pos] == '\n' {
        kept(trimmed(s.subrange(start, pos))) + lines_from(s, pos + 1, pos + 1)
    } else {
        lines_from(s, start, pos + 1)
    }
}

/// The versions that the proxy lists for a module: the lines of its answer that hold more
/// than white space, each without the white space around it.
pub fn parse_version_list(text: &str) -> (r: Vec<String>)
    ensures
        texts(r@) == lines_from(text@, 0, 0),
{
    let v = chars_of(text);
    let mut r: Vec<String> = Vec::new();
    let mut from: usize = 0;
    loop
        invariant_except_break
            texts(r@) + lines_from(v@, from as int, from as int) == lines_from(v@, 0, 0),
        invariant
            from <= v.len(),
            v@ == text@,
        ensures
            texts(r@) == lines_from(v@, 0, 0),
        decreases v.len() - from,
    {
        let mut end: usize = from;
        while end < v.len() && v[end] != '\n'
            invariant
                from <= end <= v.len(),
                lines_from(v@, from as int, from as int) == lines_from(v@, from as int, end as int),
            decreases v.len() - end,
        {
            end = end + 1;
        }
        let (a, e) = trim_bounds(&v, from, end);
        let ghost before = texts(r@);
        let ghost line = trimmed(v@.subrange(from as int, end as int));
        if a < e {
            r.push(string_of(&v, a, e));
        }
        assert(texts(r@) =~= before + kept(line));
        if end >= v.len() {
            assert(before + kept(line) == lines_from(v@, 0, 0));
            break ;
        }
        assert(before + (kept(line) + lines_from(v@, end + 1, end + 1)) =~= before + kept(line)
            + lines_from(v@, end + 1, end + 1));
        from = end + 1;
    }
    r
}

} // verus!
