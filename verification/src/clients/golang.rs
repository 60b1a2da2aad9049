//! The Go module proxy: how module paths are written in its addresses, and what it tells.
use crate::cache::RequestCacheMap;
use crate::clients::github::GithubClient;
use crate::clients::shared::{RequestError, RequestResult};
use crate::text::{ascii_lower, chars_of, joined, push_char, starts_with, string_of, strip_start, strip_start_bound, to_ascii_lower};
use crate::version::Versioned;
use vstd::prelude::*;

verus! {

/// A version of a module, as the proxy reports the latest one.
#[derive(Debug, Clone)]
pub struct ModuleVersion {
    pub version: String,
    pub time: Option<String>,
}

impl Versioned for ModuleVersion {
    /// The version without the `v`s that it starts with.
    fn raw_version_string(&self) -> (r: String)
        ensures
            r@ == strip_start(self.version@, seq!['v']),
    {
        let v = chars_of(self.version.as_str());
        let set = vec!['v'];
        assert(set@ =~= seq!['v']);
        assert(v@.subrange(0, v.len() as int) =~= v@);
        let a = strip_start_bound(&v, 0, v.len(), &set);
        string_of(&v, a, v.len())
    }
}

/// How `module` is written in an address of the proxy: each ASCII upper-case letter becomes
/// `!` and the lower-case letter.
pub open spec fn encoded_path(module: Seq<char>) -> Seq<char>
    decreases module.len(),
{
    if module.len() == 0 {
        Seq::empty()
    } else if 'A' <= module.last() <= 'Z' {
        encoded_path(module.drop_last()).push('!').push(ascii_lower(module.last()))
    } else {
        encoded_path(module.drop_last()).push(module.last())
    }
}

/// Writes a module path for an address of the proxy.
pub fn encode_module_path(module: &str) -> (r: String)
    ensures
        r@ == encoded_path(module@),
{
    let v = chars_of(module);
    let mut r = String::new();
    let mut i: usize = 0;
    assert(v@.subrange(0, 0) =~= Seq::<char>::empty());
    while i < v.len()
        invariant
            i <= v.len(),
            r@ == encoded_path(v@.subrange(0, i as int)),
        decreases v.len() - i,
    {
        let c = v[i];
        proof {
            let s = v@.subrange(0, i + 1);
            assert(s.drop_last() =~= v@.subrange(0, i as int));
            assert(s.last() == c);
        }
        if 'A' <= c && c <= 'Z' {
            push_char(&mut r, '!');
            push_char(&mut r, to_ascii_lower(c));
        } else {
            push_char(&mut r, c);
        }
        i = i + 1;
    }
    assert(v@.subrange(0, i as int) =~= v@);
    r
}

/// The place of the first `/` of `s` at or after `from`, or the length of `s`.
pub open spec fn first_slash(s: Seq<char>, from: int) -> int
    decreases s.len() - from,
{
    if from >= s.len() {
        s.len() as int
    } else if s[from] == '/' {
        from
    } else {
        first_slash(s, from + 1)
    }
}

/// What module paths on GitHub start with.
pub open spec fn github_prefix() -> Seq<char> {
    seq!['g', 'i', 't', 'h', 'u', 'b', '.', 'c', 'o', 'm', '/']
}

/// The owner and the repository of a module on GitHub: what stands between `github.com/` and
/// the next `/`, and what follows up to the `/` after that or the end. `None` where the path
/// starts otherwise, names no repository, or either name is empty.
pub open spec fn github_owner_repo(module: Seq<char>) -> Option<(Seq<char>, Seq<char>)> {
    let i = first_slash(module, 11);
    let j = first_slash(module, i + 1);
    if !github_prefix().is_prefix_of(module) || i >= module.len() || i == 11 || j == i + 1 {
        None
    } else {
        Some((module.subrange(11, i), module.subrange(i + 1, j)))
    }
}

pub(crate) fn find_slash(v: &Vec<char>, from: usize) -> (r: usize)
    requires
        from <= v.len(),
    ensures
        r == first_slash(v@, from as int),
        from <= r <= v.len(),
{
    let mut i: usize = from;
    while i < v.len() && v[i] != '/'
        invariant
            from <= i <= v.len(),
            first_slash(v@, from as int) == first_slash(v@, i as int),
        decreases v.len() - i,
    {
        i = i + 1;
    }
    i
}

/// The owner and the repository of a module that lives on GitHub.
pub fn extract_github_owner_repo(module: &str) -> (r: Option<(String, String)>)
    ensures
        match r {
            Some((owner, repo)) => github_owner_repo(module@) == Some((owner@, repo@)),
            None => github_owner_repo(module@) is None,
        },
{
    let v = chars_of(module);
    let prefix = vec!['g', 'i', 't', 'h', 'u', 'b', '.', 'c', 'o', 'm', '/'];
    assert(prefix@ =~= github_prefix());
    if !starts_with(&v, &prefix) {
        return None;
    }
    let i = find_slash(&v, 11);
    if i >= v.len() || i == 11 {
        return None;
    }
    let j = find_slash(&v, i + 1);
    if j == i + 1 {
        return None;
    }
    Some((string_of(&v, 11, i), string_of(&v, i + 1, j)))
}

/// What the client of the proxy has fetched, by module path.
pub struct GolangCache {
    pub version_lists: RequestCacheMap<RequestResult<Vec<String>>>,
    pub latest_versions: RequestCacheMap<RequestResult<ModuleVersion>>,
}

impl GolangCache {
    /// Whether the caches hold nothing and keep what they come to hold for the times of the
    /// proxy, in milliseconds.
    pub open spec fn is_new(&self) -> bool {
        &&& self.version_lists.well_formed()
        &&& self.version_lists.fresh_ttl() == 3_600_000 && self.version_lists.retry_ttl() == 900_000
        &&& forall|key: Seq<char>| #[trigger] self.version_lists.slot(key) is Idle
        &&& self.latest_versions.well_formed()
        &&& self.latest_versions.fresh_ttl() == 3_600_000 && self.latest_versions.retry_ttl() == 900_000
        &&& forall|key: Seq<char>| #[trigger] self.latest_versions.slot(key) is Idle
    }

    /// Empty caches that keep a result for an hour and a failure for a quarter of an hour.
    pub fn new() -> (r: Self)
        ensures
            r.is_new(),
    {
        GolangCache {
            version_lists: RequestCacheMap::new_mins(60, 15),
            latest_versions: RequestCacheMap::new_mins(60, 15),
        }
    }
}

/// The state of the client of the Go module proxy.
pub struct GolangClient {
    pub cache: GolangCache,
    pub github: GithubClient,
}

impl GolangClient {
    /// A client that has fetched nothing yet.
    pub fn new(github: GithubClient) -> (r: Self)
        ensures
            r.github == github,
            r.cache.is_new(),
    {
        GolangClient { cache: GolangCache::new(), github }
    }
}

/// The owner and the repository on GitHub from which the metadata of a module is fetched; an
/// error of the client where the module does not live on GitHub.
pub fn metadata_target(module: &str) -> (r: RequestResult<(String, String)>)
    ensures
        match r {
            Ok((owner, repo)) => github_owner_repo(module@) == Some((owner@, repo@)),
            Err(e) => github_owner_repo(module@) is None && !e.not_found && e.message@
                == "Cannot fetch metadata for non-GitHub module: "@ + module@,
        },
{
    match extract_github_owner_repo(module) {
        Some(pair) => Ok(pair),
        None => Err(
            RequestError::client(joined("Cannot fetch metadata for non-GitHub module: ", module)),
        ),
    }
}

} // verus!
