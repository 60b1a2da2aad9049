//! The Python package index: how package names are written, and what the index tells.
use crate::cache::RequestCacheMap;
use crate::clients::shared::{distinct_names, has_distinct_names, RequestResult};
use crate::pep_version::PepVersioned;
use crate::text::{ascii_lower, chars_of, push_char, starts_with, to_ascii_lower};
use vstd::prelude::*;

verus! {

/// Whether `c` separates the words of a package name.
pub open spec fn is_name_separator(c: char) -> bool {
    c == '-' || c == '_' || c == '.'
}

/// A package name in its normal form: ASCII letters in lower case, and one `-` for each run
/// of `-`, `_` and `.`.
pub open spec fn normalized_name(name: Seq<char>) -> Seq<char>
    decreases name.len(),
{
    if name.len() == 0 {
        Seq::empty()
    } else if !is_name_separator(name.last()) {
        normalized_name(name.drop_last()).push(ascii_lower(name.last()))
    } else if name.len() >= 2 && is_name_separator(name[name.len() - 2]) {
        normalized_name(name.drop_last())
    } else {
        normalized_name(name.drop_last()).push('-')
    }
}

/// Brings a package name into its normal form.
pub fn normalize_name(name: &str) -> (r: String)
    ensures
        r@ == normalized_name(name@),
{
    let v = chars_of(name);
    let mut r = String::new();
    let mut prev_was_separator = false;
    let mut i: usize = 0;
    assert(v@.subrange(0, 0) =~= Seq::<char>::empty());
    while i < v.len()
        invariant
            i <= v.len(),
            r@ == normalized_name(v@.subrange(0, i as int)),
            prev_was_separator == (i > 0 && is_name_separator(v@[i - 1])),
        decreases v.len() - i,
    {
        let c = v[i];
        proof {
            let s = v@.subrange(0, i + 1);
            assert(s.drop_last() =~= v@.subrange(0, i as int));
            assert(s.last() == c);
            if i > 0 {
                assert(s[s.len() - 2] == v@[i - 1]);
            }
        }
        if c == '-' || c == '_' || c == '.' {
            if !prev_was_separator {
                push_char(&mut r, '-');
                prev_was_separator = true;
            }
        } else {
            push_char(&mut r, to_ascii_lower(c));
            prev_was_separator = false;
        }
        i = i + 1;
    }
    assert(v@.subrange(0, i as int) =~= v@);
    r
}

/// `s` in lower case, by the rules of Unicode, as `str::to_lowercase` gives it.
pub uninterp spec fn unicode_lowercase(s: Seq<char>) -> Seq<char>;

/// `str::to_lowercase`. The contract names what comes back.
#[verifier::external_body]
fn to_lowercase(s: &str) -> (r: String)
    ensures
        r@ == unicode_lowercase(s@),
{
    s.to_lowercase()
}

/// A file of a package on the simple index.
#[derive(Debug, Clone)]
pub struct SimpleMetadataFile {
    pub filename: String,
    pub yanked: bool,
}

/// What the simple index tells of a package.
#[derive(Debug, Clone)]
pub struct SimpleMetadata {
    pub name: String,
    pub versions: Vec<String>,
    pub files: Vec<SimpleMetadataFile>,
}

/// A version of a package on the simple index, and whether it is yanked.
#[derive(Debug, Clone)]
pub struct SimpleMetadataVersion {
    pub version: String,
    pub yanked: bool,
}

impl PepVersioned for SimpleMetadataVersion {
    fn raw_version_string(&self) -> (r: String)
        ensures
            r@ == self.version@,
    {
        self.version.clone()
    }

    fn deprecated(&self) -> (b: bool)
        ensures
            b == self.yanked,
    {
        self.yanked
    }
}

/// Whether a file belongs to the version `version` of the package `name`: its name in lower
/// case starts with the package's name in lower case, `-` and the version.
pub open spec fn file_is_of(name: Seq<char>, version: Seq<char>, filename: Seq<char>) -> bool {
    (unicode_lowercase(name) + seq!['-'] + version).is_prefix_of(unicode_lowercase(filename))
}

/// Whether the version `version` of the package `name` is yanked: it has files, and every one
/// of them is yanked.
pub open spec fn simple_version_is_yanked(
    name: Seq<char>,
    version: Seq<char>,
    files: Seq<SimpleMetadataFile>,
) -> bool {
    &&& exists|k: int| 0 <= k < files.len() && file_is_of(name, version, (#[trigger] files[k]).filename@)
    &&& forall|k: int|
        0 <= k < files.len() && file_is_of(name, version, (#[trigger] files[k]).filename@)
            ==> files[k].yanked
}

impl SimpleMetadata {
    /// The versions of the package, each with whether it is yanked, in the order of the
    /// index.
    pub fn versions(&self) -> (r: Vec<SimpleMetadataVersion>)
        ensures
            r@.len() == self.versions@.len(),
            forall|i: int|
                0 <= i < r@.len() ==> (#[trigger] r@[i]).version@ == self.versions@[i]@
                    && r@[i].yanked == simple_version_is_yanked(
                    self.name@,
                    self.versions@[i]@,
                    self.files@,
                ),
    {
        let name_lower = chars_of(to_lowercase(self.name.as_str()).as_str());
        let mut names: Vec<Vec<char>> = Vec::new();
        let mut f: usize = 0;
        while f < self.files.len()
            invariant
                f <= self.files.len(),
                names.len() == f,
                forall|k: int|
                    0 <= k < f ==> (#[trigger] names@[k])@ == unicode_lowercase(
                        self.files@[k].filename@,
                    ),
            decreases self.files.len() - f,
        {
            names.push(chars_of(to_lowercase(self.files[f].filename.as_str()).as_str()));
            f = f + 1;
        }
        let mut r: Vec<SimpleMetadataVersion> = Vec::new();
        let mut i: usize = 0;
        while i < self.versions.len()
            invariant
                i <= self.versions.len(),
                r@.len() == i,
                name_lower@ == unicode_lowercase(self.name@),
                names.len() == self.files.len(),
                forall|k: int|
                    0 <= k < names.len() ==> (#[trigger] names@[k])@ == unicode_lowercase(
                        self.files@[k].filename@,
                    ),
                forall|k: int|
                    0 <= k < i ==> (#[trigger] r@[k]).version@ == self.versions@[k]@
                        && r@[k].yanked == simple_version_is_yanked(
                        self.name@,
                        self.versions@[k]@,
                        self.files@,
                    ),
            decreases self.versions.len() - i,
        {
            let version = &self.versions[i];
            let mut prefix: Vec<char> = Vec::new();
            let mut p: usize = 0;
            while p < name_lower.len()
                invariant
                    p <= name_lower.len(),
                    prefix@ == name_lower@.subrange(0, p as int),
                decreases name_lower.len() - p,
            {
                prefix.push(name_lower[p]);
                p = p + 1;
                assert(name_lower@.subrange(0, p as int) =~= name_lower@.subrange(0, p - 1).push(
                    name_lower@[p - 1],
                ));
            }
            assert(name_lower@.subrange(0, p as int) =~= name_lower@);
            prefix.push('-');
            let tail = chars_of(version.as_str());
            let ghost head = prefix@;
            let mut q: usize = 0;
            while q < tail.len()
                invariant
                    q <= tail.len(),
                    prefix@ == head + tail@.subrange(0, q as int),
                decreases tail.len() - q,
            {
                prefix.push(tail[q]);
                q = q + 1;
                assert(tail@.subrange(0, q as int) =~= tail@.subrange(0, q - 1).push(tail@[q - 1]));
            }
            assert(tail@.subrange(0, q as int) =~= tail@);
            assert(prefix@ =~= unicode_lowercase(self.name@) + seq!['-'] + version@);
            let mut any = false;
            let mut all = true;
            let mut k: usize = 0;
            while k < self.files.len()
                invariant
                    k <= self.files.len(),
                    names.len() == self.files.len(),
                    prefix@ == unicode_lowercase(self.name@) + seq!['-'] + version@,
                    forall|m: int|
                        0 <= m < names.len() ==> (#[trigger] names@[m])@ == unicode_lowercase(
                            self.files@[m].filename@,
                        ),
                    any == exists|m: int|
                        0 <= m < k && file_is_of(
                            self.name@,
                            version@,
                            (#[trigger] self.files@[m]).filename@,
                        ),
                    all == forall|m: int|
                        0 <= m < k && file_is_of(
                            self.name@,
                            version@,
                            (#[trigger] self.files@[m]).filename@,
                        ) ==> self.files@[m].yanked,
                decreases self.files.len() - k,
            {
                if starts_with(&names[k], &prefix) {
                    assert(file_is_of(self.name@, version@, self.files@[k as int].filename@));
                    any = true;
                    if !self.files[k].yanked {
                        all = false;
                    }
                }
                k = k + 1;
            }
            r.push(SimpleMetadataVersion { version: version.clone(), yanked: any && all });
            i = i + 1;
        }
        r
    }
}

/// What the registry says of a package in general.
#[derive(Debug, Clone)]
pub struct RegistryMetadataInfo {
    pub name: String,
    pub version: String,
    pub summary: Option<String>,
    pub description: Option<String>,
    pub author: Option<String>,
    pub author_email: Option<String>,
    pub license: Option<String>,
    pub home_page: Option<String>,
    pub project_url: Option<String>,
    /// The addresses of the project by what they are called, in the order of the registry.
    pub project_urls: Option<Vec<(String, String)>>,
    pub requires_python: Option<String>,
    pub provides_extra: Option<Vec<String>>,
    pub yanked: bool,
    pub yanked_reason: Option<String>,
}

impl RegistryMetadataInfo {
    /// Whether the addresses of the project are in order: no name stands twice.
    pub open spec fn well_formed(&self) -> bool {
        self.project_urls matches Some(urls) ==> has_distinct_names(urls@)
    }

    /// Decides whether the addresses of the project are in order.
    pub fn is_well_formed(&self) -> (b: bool)
        ensures
            b == self.well_formed(),
    {
        match &self.project_urls {
            Some(urls) => distinct_names(urls),
            None => true,
        }
    }
}

/// A file of a release on the registry.
#[derive(Debug, Clone)]
pub struct RegistryMetadataRelease {
    pub yanked: bool,
    pub yanked_reason: Option<String>,
}

/// What the registry tells of a package.
#[derive(Debug, Clone)]
pub struct RegistryMetadata {
    pub info: RegistryMetadataInfo,
    /// The files of each release by its version, no version twice.
    pub releases: Vec<(String, Vec<RegistryMetadataRelease>)>,
}

/// A version of a package on the registry, and whether it is yanked.
#[derive(Debug, Clone)]
pub struct RegistryMetadataVersion {
    pub version: String,
    pub yanked: bool,
}

impl PepVersioned for RegistryMetadataVersion {
    fn raw_version_string(&self) -> (r: String)
        ensures
            r@ == self.version@,
    {
        self.version.clone()
    }

    fn deprecated(&self) -> (b: bool)
        ensures
            b == self.yanked,
    {
        self.yanked
    }
}

/// Whether a release is yanked: it has no file, or every file of it is yanked.
pub open spec fn release_is_yanked(files: Seq<RegistryMetadataRelease>) -> bool {
    forall|k: int| 0 <= k < files.len() ==> (#[trigger] files[k]).yanked
}

impl RegistryMetadata {
    /// Whether what the registry tells is in order: no version has two releases, and no
    /// address of the project two entries.
    pub open spec fn well_formed(&self) -> bool {
        self.info.well_formed() && has_distinct_names(self.releases@)
    }

    /// Decides whether what the registry tells is in order.
    pub fn is_well_formed(&self) -> (b: bool)
        ensures
            b == self.well_formed(),
    {
        self.info.is_well_formed() && distinct_names(&self.releases)
    }

    /// The versions of the package, each once and with whether it is yanked, in the order of
    /// the releases.
    pub fn versions(&self) -> (r: Vec<RegistryMetadataVersion>)
        requires
            self.well_formed(),
        ensures
            forall|i: int, j: int|
                0 <= i < j < r@.len() ==> (#[trigger] r@[i]).version@ != (#[trigger] r@[j]).version@,
            r@.len() == self.releases@.len(),
            forall|i: int|
                0 <= i < r@.len() ==> (#[trigger] r@[i]).version@ == self.releases@[i].0@
                    && r@[i].yanked == release_is_yanked(self.releases@[i].1@),
    {
        let mut r: Vec<RegistryMetadataVersion> = Vec::new();
        let mut i: usize = 0;
        while i < self.releases.len()
            invariant
                i <= self.releases.len(),
                r@.len() == i,
                forall|k: int|
                    0 <= k < i ==> (#[trigger] r@[k]).version@ == self.releases@[k].0@
                        && r@[k].yanked == release_is_yanked(self.releases@[k].1@),
            decreases self.releases.len() - i,
        {
            let files = &self.releases[i].1;
            let mut all = true;
            let mut k: usize = 0;
            while k < files.len()
                invariant
                    k <= files.len(),
                    all == forall|m: int| 0 <= m < k ==> (#[trigger] files@[m]).yanked,
                decreases files.len() - k,
            {
                if !files[k].yanked {
                    all = false;
                }
                k = k + 1;
            }
            r.push(RegistryMetadataVersion { version: self.releases[i].0.clone(), yanked: all });
            i = i + 1;
        }
        r
    }
}

/// What the client of the index has fetched, by address.
pub struct PyPiCache {
    pub simple_metadatas: RequestCacheMap<RequestResult<SimpleMetadata>>,
    pub registry_metadatas: RequestCacheMap<RequestResult<RegistryMetadata>>,
}

impl PyPiCache {
    /// Whether the caches hold nothing and keep what they come to hold for the times of the
    /// index, in milliseconds.
    pub open spec fn is_new(&self) -> bool {
        &&& self.simple_metadatas.well_formed()
        &&& self.simple_metadatas.fresh_ttl() == 3_600_000 && self.simple_metadatas.retry_ttl() == 900_000
        &&& forall|key: Seq<char>| #[trigger] self.simple_metadatas.slot(key) is Idle
        &&& self.registry_metadatas.well_formed()
        &&& self.registry_metadatas.fresh_ttl() == 14_400_000 && self.registry_metadatas.retry_ttl() == 7_200_000
        &&& forall|key: Seq<char>| #[trigger] self.registry_metadatas.slot(key) is Idle
    }

    /// Empty caches: the simple index is kept for an hour and its failures for a quarter of
    /// an hour, the registry for four hours and its failures for two.
    pub fn new() -> (r: Self)
        ensures
            r.is_new(),
    {
        PyPiCache {
            simple_metadatas: RequestCacheMap::new_mins(60, 15),
            registry_metadatas: RequestCacheMap::new_mins(240, 120),
        }
    }
}

/// The state of the client of the Python package index.
pub struct PyPiClient {
    pub cache: PyPiCache,
}

impl PyPiClient {
    /// A client that has fetched nothing yet.
    pub fn new() -> (r: Self)
        ensures
            r.cache.is_new(),
    {
        PyPiClient { cache: PyPiCache::new() }
    }
}

} // verus!
