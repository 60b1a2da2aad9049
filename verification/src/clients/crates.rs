//! The crates.io registry, and crates that lie beside the manifest.
use crate::cache::RequestCacheMap;
use crate::clients::shared::RequestResult;
use crate::text::{
    ascii_lowered, chars_of, joined, lowered, same_text, string_of, strip_end, strip_end_bound,
    strip_start, strip_start_bound, trim_bounds, trimmed,
};
use crate::version::{semver_parse, semver_version, Version, VersionView};
use vstd::prelude::*;

verus! {

/// What the manifest of a crate on disk tells: its version, if it has a valid one, and the
/// names of its features.
#[derive(Debug, Clone)]
pub struct LocalMetadata {
    pub version: Option<Version>,
    pub features: Vec<String>,
}

/// What the client of the registry has fetched: `I` is a line of the index of a crate, `S`
/// what the registry tells of one crate, and `M` what a search brings.
pub struct CratesCache<I, S, M> {
    pub index_metadatas: RequestCacheMap<RequestResult<Vec<I>>>,
    pub crate_datas: RequestCacheMap<RequestResult<S>>,
    pub crate_search: RequestCacheMap<RequestResult<M>>,
    pub local_metadatas: RequestCacheMap<Option<LocalMetadata>>,
}

impl<I, S, M> CratesCache<I, S, M> {
    /// Whether the caches hold nothing and keep what they come to hold for the times of the
    /// registry, in milliseconds.
    pub open spec fn is_new(&self) -> bool {
        &&& self.index_metadatas.well_formed()
        &&& self.index_metadatas.fresh_ttl() == 3_600_000 && self.index_metadatas.retry_ttl() == 900_000
        &&& forall|key: Seq<char>| #[trigger] self.index_metadatas.slot(key) is Idle
        &&& self.crate_datas.well_formed()
        &&& self.crate_datas.fresh_ttl() == 14_400_000 && self.crate_datas.retry_ttl() == 7_200_000
        &&& forall|key: Seq<char>| #[trigger] self.crate_datas.slot(key) is Idle
        &&& self.crate_search.well_formed()
        &&& self.crate_search.fresh_ttl() == 28_800_000 && self.crate_search.retry_ttl() == 14_400_000
        &&& forall|key: Seq<char>| #[trigger] self.crate_search.slot(key) is Idle
        &&& self.local_metadatas.well_formed()
        &&& self.local_metadatas.fresh_ttl() == 5_000 && self.local_metadatas.retry_ttl() == 5_000
        &&& forall|key: Seq<char>| #[trigger] self.local_metadatas.slot(key) is Idle
    }

    /// Empty caches. The index is kept for an hour and its failures for a quarter of an hour,
    /// a crate for four hours and two, a search for eight hours and four, and a manifest on
    /// disk for five seconds, found or not.
    pub fn new() -> (r: Self)
        ensures
            r.is_new(),
    {
        CratesCache {
            index_metadatas: RequestCacheMap::new_mins(60, 15),
            crate_datas: RequestCacheMap::new_mins(240, 120),
            crate_search: RequestCacheMap::new_mins(480, 240),
            local_metadatas: RequestCacheMap::new_secs(5, 5),
        }
    }
}

/// The state of the client of the crates.io registry.
pub struct CratesClient<I, S, M> {
    pub cache: CratesCache<I, S, M>,
}

impl<I, S, M> CratesClient<I, S, M> {
    /// A client that has fetched nothing yet.
    pub fn new() -> (r: Self)
        ensures
            r.cache.is_new(),
    {
        CratesClient { cache: CratesCache::new() }
    }
}

/// The part of a manifest that a line belongs to.
#[derive(Debug, Clone, Copy, PartialEq, Eq)]
pub enum ManifestSection {
    Other,
    Package,
    Features,
}

/// What has been read of a manifest.
pub struct ManifestView {
    pub section: ManifestSection,
    pub version: Option<VersionView>,
    pub features: Seq<Seq<char>>,
}

/// The place of the first `=` of `s` at or after `from`, or the length of `s`.
pub open spec fn first_equals(s: Seq<char>, from: int) -> int
    decreases s.len() - from,
{
    if from >= s.len() {
        s.len() as int
    } else if s[from] == '=' {
        from
    } else {
        first_equals(s, from + 1)
    }
}

/// The section that the header `line` opens.
pub open spec fn section_of(line: Seq<char>) -> ManifestSection {
    if line == "[package]"@ {
        ManifestSection::Package
    } else if line == "[features]"@ {
        ManifestSection::Features
    } else {
        ManifestSection::Other
    }
}

/// The value of a key without the white space around it and without the quotes around that.
pub open spec fn unquoted(value: Seq<char>) -> Seq<char> {
    strip_end(strip_start(trimmed(value), seq!['"']), seq!['"'])
}

/// What reading one more line makes of what has been read of a manifest.
///
/// A line that starts with `[` opens a section. Of the other lines those count that hold a
/// `=`: in the section of the package the last key `version` gives the version, which is
/// missing where its value is no version; in the section of the features every key names a
/// feature.
pub open spec fn read_line(m: ManifestView, line: Seq<char>) -> ManifestView {
    let t = trimmed(line);
    let eq = first_equals(t, 0);
    let key = trimmed(t.subrange(0, eq));
    if t.len() > 0 && t[0] == '[' {
        ManifestView { section: section_of(t), ..m }
    } else if eq >= t.len() {
        m
    } else if m.section == ManifestSection::Package && key == "version"@ {
        ManifestView {
            version: semver_version(unquoted(t.subrange(eq + 1, t.len() as int))),
            ..m
        }
    } else if m.section == ManifestSection::Features {
        ManifestView { features: m.features.push(key), ..m }
    } else {
        m
    }
}

/// What has been read of a manifest after its first `n` lines.
pub open spec fn read_lines(lines: Seq<Seq<char>>, n: int) -> ManifestView
    decreases n,
{
    if n <= 0 {
        ManifestView { section: ManifestSection::Other, version: None, features: Seq::empty() }
    } else {
        read_line(read_lines(lines, n - 1), lines[n - 1])
    }
}

/// Reads the version and the features of a crate from the lines of its manifest, without
/// reading the manifest as the TOML that it is.
pub fn parse_local_manifest(lines: &Vec<String>) -> (r: LocalMetadata)
    ensures
        ({
            let m = read_lines(Seq::new(lines@.len(), |i: int| lines@[i]@), lines@.len() as int);
            &&& match r.version {
                Some(v) => m.version == Some(v@),
                None => m.version is None,
            }
            &&& Seq::new(r.features@.len(), |i: int| r.features@[i]@) == m.features
        }),
{
    let ghost all = Seq::new(lines@.len(), |i: int| lines@[i]@);
    let mut version: Option<Version> = None;
    let mut features: Vec<String> = Vec::new();
    let mut section = ManifestSection::Other;
    let quote = vec!['"'];
    assert(quote@ =~= seq!['"']);
    let mut n: usize = 0;
    while n < lines.len()
        invariant
            n <= lines.len(),
            all == Seq::new(lines@.len(), |i: int| lines@[i]@),
            quote@ == seq!['"'],
            ({
                let m = read_lines(all, n as int);
                &&& m.section == section
                &&& match version {
                    Some(v) => m.version == Some(v@),
                    None => m.version is None,
                }
                &&& Seq::new(features@.len(), |i: int| features@[i]@) == m.features
            }),
        decreases lines.len() - n,
    {
        let v = chars_of(lines[n].as_str());
        assert(all[n as int] == v@);
        assert(v@.subrange(0, v.len() as int) =~= v@);
        let (a, e) = trim_bounds(&v, 0, v.len());
        let ghost t = trimmed(v@);
        let ghost listed = Seq::new(features@.len(), |i: int| features@[i]@);
        if a < e && v[a] == '[' {
            assert(t[0] == v@[a as int]);
            let header = string_of(&v, a, e);
            section = if same_text(header.as_str(), "[package]") {
                ManifestSection::Package
            } else if same_text(header.as_str(), "[features]") {
                ManifestSection::Features
            } else {
                ManifestSection::Other
            };
        } else {
            assert(t.len() > 0 ==> t[0] == v@[a as int]);
            let mut eq: usize = a;
            while eq < e && v[eq] != '='
                invariant
                    a <= eq <= e <= v.len(),
                    t == v@.subrange(a as int, e as int),
                    first_equals(t, 0) == first_equals(t, eq - a),
                decreases e - eq,
            {
                assert(t[eq - a] == v@[eq as int]);
                eq = eq + 1;
            }
            if eq < e {
                assert(t[eq - a] == v@[eq as int]);
                assert(first_equals(t, 0) == eq - a);
                let (ka, ke) = trim_bounds(&v, a, eq);
                let key = string_of(&v, ka, ke);
                assert(t.subrange(0, eq - a) =~= v@.subrange(a as int, eq as int));
                assert(t.subrange(eq - a + 1, t.len() as int) =~= v@.subrange(eq + 1, e as int));
                let is_package = matches!(section, ManifestSection::Package);
                let is_features = matches!(section, ManifestSection::Features);
                if is_package && same_text(key.as_str(), "version") {
                    let (va, ve) = trim_bounds(&v, eq + 1, e);
                    let vb = strip_start_bound(&v, va, ve, &quote);
                    let vc = strip_end_bound(&v, vb, ve, &quote);
                    let text = string_of(&v, vb, vc);
                    version = semver_parse(text.as_str());
                } else if is_features {
                    features.push(key);
                    assert(Seq::new(features@.len(), |i: int| features@[i]@) =~= listed.push(
                        trimmed(t.subrange(0, eq - a)),
                    ));
                }
            } else {
                assert(first_equals(t, 0) >= t.len());
            }
        }
        n = n + 1;
    }
    LocalMetadata { version, features }
}

/// What `cargo metadata` tells of a package, as far as the library reads it.
#[derive(Debug, Clone)]
pub struct CargoMetadataPackage {
    pub manifest_path: String,
    pub version: Option<String>,
    /// The names of the features.
    pub features: Vec<String>,
}

/// The version that an optional text holds, if it holds one.
pub open spec fn version_in(text: Option<String>) -> Option<VersionView> {
    match text {
        Some(t) => semver_version(t@),
        None => None,
    }
}

/// The version and the features of the first package whose manifest lies at `manifest_path`.
pub fn local_metadata_of(packages: &Vec<CargoMetadataPackage>, manifest_path: &str) -> (r: Option<
    LocalMetadata,
>)
    ensures
        match r {
            Some(m) => exists|i: int|
                0 <= i < packages@.len() && (#[trigger] packages@[i]).manifest_path@
                    == manifest_path@ && (forall|k: int|
                    0 <= k < i ==> (#[trigger] packages@[k]).manifest_path@ != manifest_path@)
                    && m.features@ == packages@[i].features@ && match m.version {
                    Some(v) => version_in(packages@[i].version) == Some(v@),
                    None => version_in(packages@[i].version) is None,
                },
            None => forall|k: int|
                0 <= k < packages@.len() ==> (#[trigger] packages@[k]).manifest_path@
                    != manifest_path@,
        },
{
    let mut i: usize = 0;
    while i < packages.len()
        invariant
            i <= packages.len(),
            forall|k: int|
                0 <= k < i ==> (#[trigger] packages@[k]).manifest_path@ != manifest_path@,
        decreases packages.len() - i,
    {
        let package = &packages[i];
        if same_text(package.manifest_path.as_str(), manifest_path) {
            let version = match &package.version {
                Some(text) => semver_parse(text.as_str()),
                None => None,
            };
            return Some(LocalMetadata { version, features: package.features.clone() });
        }
        i = i + 1;
    }
    None
}

/// Where the index of the registry keeps the crate `name`: under `1` or `2` for a name of one
/// or two characters, under `3` and its first character for one of three, and else under its
/// first two characters and its next two.
pub open spec fn index_path_of(name: Seq<char>) -> Seq<char> {
    if name.len() == 0 {
        name
    } else if name.len() == 1 {
        seq!['1', '/'] + name
    } else if name.len() == 2 {
        seq!['2', '/'] + name
    } else if name.len() == 3 {
        seq!['3', '/'] + name.take(1) + seq!['/'] + name
    } else {
        name.take(2) + seq!['/'] + name.subrange(2, 4) + seq!['/'] + name
    }
}

/// The path of the crate `name` in the index of the registry, which knows names in lower
/// case only.
pub fn index_path(name: &str) -> (r: String)
    ensures
        r@ == index_path_of(ascii_lowered(name@)),
{
    let v = lowered(name);
    let n = v.len();
    let whole = string_of(&v, 0, n);
    proof {
        reveal_strlit("1/");
        reveal_strlit("2/");
        reveal_strlit("3/");
        reveal_strlit("/");
        assert(v@.subrange(0, n as int) =~= v@);
        assert("1/"@ =~= seq!['1', '/']);
        assert("2/"@ =~= seq!['2', '/']);
        assert("3/"@ =~= seq!['3', '/']);
        assert("/"@ =~= seq!['/']);
    }
    if n == 0 {
        whole
    } else if n == 1 {
        joined("1/", whole.as_str())
    } else if n == 2 {
        joined("2/", whole.as_str())
    } else if n == 3 {
        let first = string_of(&v, 0, 1);
        let head = joined(joined("3/", first.as_str()).as_str(), "/");
        joined(head.as_str(), whole.as_str())
    } else {
        let first = string_of(&v, 0, 2);
        let next = string_of(&v, 2, 4);
        let head = joined(joined(first.as_str(), "/").as_str(), next.as_str());
        joined(joined(head.as_str(), "/").as_str(), whole.as_str())
    }
}

} // verus!
