//! What is found wrong with a dependency of a `pyproject.toml`, and what its hover links to.
use crate::clients::pypi::{RegistryMetadataInfo, SimpleMetadataVersion};
use crate::pep_types::{parse_pep_version_req, pep_requirement, pep_satisfies, satisfies};
use crate::pep_types::PepVersionView;
use crate::pep_version::{describes, extract_latest_version, records, selects_unfiltered, Pep440};
use crate::pep_version_req::{is_minimum_of, pep_candidates, PepVersionReqExt};
use crate::scheme::{cores, eligible, is_latest, standing};
use crate::text::{
    ascii_lowered, chars_of, eq_ignore_ascii_case, equal_ignoring_ascii_case,
    lowered, same_text, starts_with, trim, trimmed,
};
use crate::vecs::marked_places;
use crate::version_req::all_fit;
use vstd::prelude::*;

verus! {

/// Whether the versions of a package hold one that a requirement lets in, and whether every
/// such version is yanked.
#[derive(Debug, Clone, Copy, PartialEq, Eq)]
pub struct Availability {
    pub has_versions: bool,
    pub all_yanked: bool,
}

/// Whether `requirement` lets the version `v` in.
pub open spec fn lets_in(requirement: Seq<char>, v: SimpleMetadataVersion) -> bool {
    pep_satisfies(trimmed(requirement), trimmed(v.version@))
}

/// Looks through the versions of a package for those that `requirement` lets in.
pub fn availability(requirement: &str, versions: &Vec<SimpleMetadataVersion>) -> (r: Availability)
    ensures
        r.has_versions == exists|i: int|
            0 <= i < versions@.len() && lets_in(requirement@, #[trigger] versions@[i]),
        r.all_yanked == forall|i: int|
            0 <= i < versions@.len() && lets_in(requirement@, #[trigger] versions@[i])
                ==> versions@[i].yanked,
{
    let mut has_versions = false;
    let mut i: usize = 0;
    while i < versions.len()
        invariant
            i <= versions.len(),
            has_versions == exists|k: int|
                0 <= k < i && lets_in(requirement@, #[trigger] versions@[k]),
            forall|k: int|
                0 <= k < i && lets_in(requirement@, #[trigger] versions@[k])
                    ==> versions@[k].yanked,
        decreases versions.len() - i,
    {
        let v = &versions[i];
        if satisfies(requirement, v.version.as_str()) {
            assert(lets_in(requirement@, versions@[i as int]));
            if !v.yanked {
                return Availability { has_versions: true, all_yanked: false };
            }
            has_versions = true;
        }
        i = i + 1;
    }
    Availability { has_versions, all_yanked: true }
}

/// What is found of the version that a dependency asks for.
#[derive(Debug, Clone, PartialEq, Eq)]
pub enum VersionFinding {
    /// What is asked for is no requirement from which a lowest version can be derived.
    NotARequirement,
    /// No version of the package meets the requirement, whose lowest version is `minimum`.
    Missing { minimum: String },
    /// Every version of the package that meets the requirement is yanked.
    Yanked { minimum: String },
    /// The latest version of the package does not meet the requirement.
    Newer { current: String, latest: String },
    /// There is nothing to say.
    Nothing,
}

/// Whether a lowest version can be derived from `requirement`.
pub open spec fn has_minimum(requirement: Seq<char>) -> bool {
    pep_requirement(trimmed(requirement)) matches Some(q) && all_fit(pep_candidates(q.specifiers))
}

/// What the versions of a package say of themselves.
pub open spec fn version_entries(versions: Seq<SimpleMetadataVersion>) -> Seq<(Seq<char>, bool)> {
    Seq::new(versions.len(), |i: int| (versions[i].version@, versions[i].yanked))
}

/// Whether `w` is the place of the latest version that can be chosen next to `current`,
/// `compatible` says whether it is `current` or `current`, read as a requirement, lets it in,
/// and `text` is how it is written.
pub open spec fn latest_at(
    current: Seq<char>,
    versions: Seq<SimpleMetadataVersion>,
    w: int,
    compatible: bool,
    text: Seq<char>,
) -> bool {
    let entries = version_entries(versions);
    &&& is_latest::<Pep440>(cores(entries), eligible::<Pep440>(current, entries), w)
    &&& standing::<Pep440>(current, entries[w].0, entries[w].1) matches Some(st) && st.compatible
        == compatible && st.version.text == text
}

/// Whether `r` is what looking for the latest version next to `current` comes to: the latest
/// version is pointed out where it is not compatible with `current`.
pub open spec fn points_out(
    current: Seq<char>,
    versions: Seq<SimpleMetadataVersion>,
    r: VersionFinding,
) -> bool {
    match r {
        VersionFinding::Newer { current: c, latest } => c@ == current && exists|w: int| #[trigger]
            latest_at(current, versions, w, false, latest@),
        VersionFinding::Nothing => (forall|i: int|
            0 <= i < versions.len() ==> !#[trigger] eligible::<Pep440>(
                current,
                version_entries(versions),
            )[i]) || exists|w: int, text: Seq<char>| #[trigger]
            latest_at(current, versions, w, true, text),
        _ => false,
    }
}

/// Decides what to say of the version that a dependency asks for, given the versions of the
/// package.
///
/// Nothing is said of what is no requirement. Else it is an error that no version meets the
/// requirement, and a warning that all that do are yanked. Else the latest version is looked
/// for, next to the lowest version of the requirement, and pointed out where it is neither
/// that lowest version nor let in by it, read as a requirement.
pub fn check_version(requirement: &str, versions: Vec<SimpleMetadataVersion>) -> (r: VersionFinding)
    ensures
        r is NotARequirement <==> !has_minimum(requirement@),
        r is Missing <==> has_minimum(requirement@) && !exists|i: int|
            0 <= i < versions@.len() && lets_in(requirement@, #[trigger] versions@[i]),
        r is Yanked <==> has_minimum(requirement@) && (exists|i: int|
            0 <= i < versions@.len() && lets_in(requirement@, #[trigger] versions@[i]))
            && forall|i: int|
            0 <= i < versions@.len() && lets_in(requirement@, #[trigger] versions@[i])
                ==> versions@[i].yanked,
        r matches VersionFinding::Missing { minimum } ==> exists|v: PepVersionView|
            is_minimum_of(v, pep_candidates(pep_requirement(trimmed(requirement@))->0.specifiers))
                && #[trigger] v.text == minimum@,
        r matches VersionFinding::Yanked { minimum } ==> exists|v: PepVersionView|
            is_minimum_of(v, pep_candidates(pep_requirement(trimmed(requirement@))->0.specifiers))
                && #[trigger] v.text == minimum@,
        r is Newer || r is Nothing ==> exists|v: PepVersionView|
            is_minimum_of(v, pep_candidates(pep_requirement(trimmed(requirement@))->0.specifiers))
                && #[trigger] points_out(v.text, versions@, r),
{
    let req = match parse_pep_version_req(requirement) {
        Some(req) => req,
        None => {
            return VersionFinding::NotARequirement;
        },
    };
    assert(req.candidates() == pep_candidates(req@.specifiers));
    let lowest = match req.minimum_version() {
        Some(lowest) => lowest,
        None => {
            return VersionFinding::NotARequirement;
        },
    };
    let minimum = lowest.to_string();
    let found = availability(requirement, &versions);
    if !found.has_versions {
        assert(lowest@.text == minimum@);
        return VersionFinding::Missing { minimum };
    }
    if found.all_yanked {
        assert(lowest@.text == minimum@);
        return VersionFinding::Yanked { minimum };
    }
    let latest = extract_latest_version(minimum.as_str(), versions);
    let ghost mut place: int = 0;
    proof {
        let entries = choose|entries: Seq<(Seq<char>, bool)>| #[trigger]
            selects_unfiltered(minimum@, versions@, entries, latest);
        assert(entries =~= version_entries(versions@)) by {
            assert forall|i: int| 0 <= i < entries.len() implies entries[i] == version_entries(
                versions@,
            )[i] by {
                assert(describes(versions@[i], entries[i]));
            }
        }
        if latest is Some {
            let x = latest->0;
            place = choose|w: int| #[trigger]
                is_latest::<Pep440>(cores(entries), eligible::<Pep440>(minimum@, entries), w)
                    && records(minimum@, versions@[w], entries[w], x);
            assert(latest_at(minimum@, versions@, place, x.is_compatible, x.item_version@.text));
        }
    }
    match latest {
        Some(latest) => if latest.is_compatible {
            assert(latest_at(lowest@.text, versions@, place, true, latest.item_version@.text));
            assert(points_out(lowest@.text, versions@, VersionFinding::Nothing));
            VersionFinding::Nothing
        } else {
            let text = latest.item_version.to_string();
            let ghost current = lowest@.text;
            assert(minimum@ == current);
            assert(latest_at(current, versions@, place, false, text@));
            let r = VersionFinding::Newer { current: minimum, latest: text };
            assert(r->current@ == current && r->latest@ == text@);
            assert(points_out(current, versions@, r));
            r
        },
        None => {
            assert(points_out(lowest@.text, versions@, VersionFinding::Nothing));
            VersionFinding::Nothing
        },
    }
}

/// The places of the extras that the package does not know, whatever the case of letters and
/// the white space around them, in rising order.
pub fn unknown_extras(extras: &Vec<String>, known: &Vec<String>) -> (r: Vec<usize>)
    ensures
        forall|k: int| 0 <= k < r@.len() ==> #[trigger] r@[k] < extras@.len(),
        forall|k: int, m: int| 0 <= k < m < r@.len() ==> r@[k] < r@[m],
        forall|i: int|
            0 <= i < extras@.len() ==> (r@.contains(i as usize) <==> !is_known(
                (#[trigger] extras@[i])@,
                known@,
            )),
{
    let mut marks: Vec<bool> = Vec::new();
    let mut i: usize = 0;
    while i < extras.len()
        invariant
            i <= extras.len(),
            marks@.len() == i,
            forall|j: int| 0 <= j < i ==> #[trigger] marks@[j] == !is_known(extras@[j]@, known@),
        decreases extras.len() - i,
    {
        marks.push(!knows(known, extras[i].as_str()));
        i = i + 1;
    }
    let r = marked_places(&marks);
    assert forall|i: int| 0 <= i < extras@.len() implies (r@.contains(i as usize) <==> !is_known(
        (#[trigger] extras@[i])@,
        known@,
    )) by {
        if r@.contains(i as usize) {
            let w = choose|w: int| 0 <= w < r@.len() && r@[w] == i as usize;
            assert(marks@[r@[w] as int]);
        }
        if marks@[i] {
            assert(r@.contains(i as usize));
        }
    }
    r
}

/// Whether `known` holds `extra`, whatever the case of letters and the white space around
/// `extra`.
pub open spec fn is_known(extra: Seq<char>, known: Seq<String>) -> bool {
    exists|k: int|
        0 <= k < known.len() && equal_ignoring_ascii_case((#[trigger] known[k])@, trimmed(extra))
}

fn knows(known: &Vec<String>, extra: &str) -> (r: bool)
    ensures
        r == is_known(extra@, known@),
{
    let wanted = chars_of(trim(extra).as_str());
    let mut k: usize = 0;
    while k < known.len()
        invariant
            k <= known.len(),
            wanted@ == trimmed(extra@),
            forall|m: int|
                0 <= m < k ==> !equal_ignoring_ascii_case((#[trigger] known@[m])@, trimmed(extra@)),
        decreases known.len() - k,
    {
        if eq_ignore_ascii_case(&chars_of(known[k].as_str()), &wanted) {
            return true;
        }
        k = k + 1;
    }
    false
}

/// The addresses that the hover of a package links to.
#[derive(Debug, Clone, PartialEq, Eq)]
pub struct HoverLinks {
    pub documentation: Option<String>,
    pub repository: Option<String>,
    pub homepage: Option<String>,
}

/// Whether `needle` occurs in `s`.
pub open spec fn occurs_in(needle: Seq<char>, s: Seq<char>) -> bool {
    exists|i: int| 0 <= i <= s.len() - needle.len() && #[trigger] s.subrange(i, i + needle.len()) == needle
}

fn contains(s: &Vec<char>, needle: &str) -> (r: bool)
    ensures
        r == occurs_in(needle@, s@),
{
    let n = chars_of(needle);
    if n.len() > s.len() {
        return false;
    }
    let mut i: usize = 0;
    while i <= s.len() - n.len()
        invariant
            n.len() <= s.len(),
            n@ == needle@,
            i <= s.len() - n.len() + 1,
            forall|k: int| 0 <= k < i ==> #[trigger] s@.subrange(k, k + n.len()) != n@,
        decreases s.len() - n.len() + 1 - i,
    {
        let mut j: usize = 0;
        while j < n.len() && s[i + j] == n[j]
            invariant
                j <= n.len(),
                i + n.len() <= s.len(),
                forall|m: int| 0 <= m < j ==> s@[i + m] == n@[m],
            decreases n.len() - j,
        {
            j = j + 1;
        }
        if j == n.len() {
            assert(s@.subrange(i as int, i + n.len()) =~= n@);
            return true;
        }
        assert(s@.subrange(i as int, i + n.len())[j as int] != n@[j as int]);
        i = i + 1;
    }
    false
}

/// Whether the name `key` of an address tells of a repository: in lower case it holds
/// `repository` or `source`, or is `github`.
pub open spec fn names_repository(key: Seq<char>) -> bool {
    let k = ascii_lowered(key);
    occurs_in("repository"@, k) || occurs_in("source"@, k) || k == "github"@
}

/// Whether the name `key` of an address tells of documentation: in lower case it holds
/// `documentation` or `docs`.
pub open spec fn names_documentation(key: Seq<char>) -> bool {
    let k = ascii_lowered(key);
    occurs_in("documentation"@, k) || occurs_in("docs"@, k)
}

/// Whether the name `key` of an address tells of a homepage: in lower case it holds `home`.
pub open spec fn names_homepage(key: Seq<char>) -> bool {
    let k = ascii_lowered(key);
    occurs_in("homepage"@, k) || occurs_in("home"@, k)
}

/// The repository, the documentation and the homepage that are found in the first `n` of the
/// named addresses `urls`, where `page` is the homepage that is known beforehand. Each
/// address is taken for the first thing that its name tells of and that is not found yet.
pub open spec fn links_found(
    urls: Seq<(Seq<char>, Seq<char>)>,
    page: Option<Seq<char>>,
    n: int,
) -> (Option<Seq<char>>, Option<Seq<char>>, Option<Seq<char>>)
    decreases n,
{
    if n <= 0 {
        (None, None, page)
    } else {
        let (repo, docs, page) = links_found(urls, page, n - 1);
        let (key, url) = urls[n - 1];
        if repo is None && names_repository(key) {
            (Some(url), docs, page)
        } else if docs is None && names_documentation(key) {
            (repo, Some(url), page)
        } else if page is None && names_homepage(key) {
            (repo, docs, Some(url))
        } else {
            (repo, docs, page)
        }
    }
}

/// What an optional string stands for.
pub open spec fn text_of(s: Option<String>) -> Option<Seq<char>> {
    match s {
        Some(x) => Some(x@),
        None => None,
    }
}

/// The views of named addresses.
pub open spec fn url_views(urls: Option<Vec<(String, String)>>) -> Seq<(Seq<char>, Seq<char>)> {
    match urls {
        Some(u) => Seq::new(u@.len(), |i: int| (u@[i].0@, u@[i].1@)),
        None => Seq::empty(),
    }
}

fn same_option(a: &Option<String>, b: &Option<String>) -> (r: bool)
    ensures
        r == match (a, b) {
            (Some(x), Some(y)) => x@ == y@,
            (None, None) => true,
            _ => false,
        },
{
    match (a, b) {
        (Some(x), Some(y)) => same_text(x.as_str(), y.as_str()),
        (None, None) => true,
        _ => false,
    }
}

/// The addresses that the hover of a package links to.
///
/// The homepage is the one that the package names, else the first address whose name tells
/// of a homepage. The repository and the documentation are the first addresses whose names
/// tell of them; each address is taken for one thing only, a repository before documentation
/// before a homepage. A homepage or documentation that is the repository is left out.
pub fn hover_links(info: &RegistryMetadataInfo) -> (r: HoverLinks)
    requires
        info.well_formed(),
    ensures
        ({
            let urls = url_views(info.project_urls);
            let (repo, docs, page) = links_found(urls, text_of(info.home_page), urls.len() as int);
            &&& text_of(r.repository) == repo
            &&& text_of(r.documentation) == if docs == repo {
                None
            } else {
                docs
            }
            &&& text_of(r.homepage) == if page == repo {
                None
            } else {
                page
            }
        }),
{
    let mut repo: Option<String> = None;
    let mut docs: Option<String> = None;
    let mut page: Option<String> = match &info.home_page {
        Some(p) => Some(p.clone()),
        None => None,
    };
    let ghost all = url_views(info.project_urls);
    let ghost start = text_of(info.home_page);
    match &info.project_urls {
        Some(urls) => {
            let mut i: usize = 0;
            while i < urls.len()
                invariant
                    i <= urls.len(),
                    all.len() == urls@.len(),
                    forall|k: int|
                        0 <= k < urls@.len() ==> #[trigger] all[k] == (urls@[k].0@, urls@[k].1@),
                    (text_of(repo), text_of(docs), text_of(page)) == links_found(
                        all,
                        start,
                        i as int,
                    ),
                decreases urls.len() - i,
            {
                let lower = lowered(urls[i].0.as_str());
                assert(all[i as int] == (urls@[i as int].0@, urls@[i as int].1@));
                let github = chars_of("github");
                let is_github = starts_with(&lower, &github) && lower.len() == github.len();
                assert(is_github == (lower@ == "github"@)) by {
                    if is_github {
                        assert(lower@ =~= lower@.subrange(0, github@.len() as int));
                    }
                }
                if repo.is_none() && (contains(&lower, "repository") || contains(&lower, "source")
                    || is_github) {
                    repo = Some(urls[i].1.clone());
                } else if docs.is_none() && (contains(&lower, "documentation") || contains(
                    &lower,
                    "docs",
                )) {
                    docs = Some(urls[i].1.clone());
                } else if page.is_none() && (contains(&lower, "homepage") || contains(
                    &lower,
                    "home",
                )) {
                    page = Some(urls[i].1.clone());
                }
                i = i + 1;
            }
        },
        None => {},
    }
    if same_option(&page, &repo) {
        page = None;
    }
    if same_option(&docs, &repo) {
        docs = None;
    }
    HoverLinks { documentation: docs, repository: repo, homepage: page }
}

} // verus!
