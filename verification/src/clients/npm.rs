//! The npm registry.
use crate::cache::RequestCacheMap;
use crate::clients::shared::RequestResult;
use vstd::prelude::*;

verus! {

/// What the client of the registry has fetched, by address; `M` is what the registry tells of
/// a package.
pub struct NpmCache<M> {
    pub registry_metadatas: RequestCacheMap<RequestResult<M>>,
}

impl<M> NpmCache<M> {
    /// Whether the cache holds nothing and keeps what it comes to hold for the times of the
    /// registry, in milliseconds.
    pub open spec fn is_new(&self) -> bool {
        &&& self.registry_metadatas.well_formed()
        &&& self.registry_metadatas.fresh_ttl() == 3_600_000 && self.registry_metadatas.retry_ttl() == 900_000
        &&& forall|key: Seq<char>| #[trigger] self.registry_metadatas.slot(key) is Idle
    }

    /// An empty cache that keeps a result for an hour and a failure for a quarter of an hour.
    pub fn new() -> (r: Self)
        ensures
            r.is_new(),
    {
        NpmCache { registry_metadatas: RequestCacheMap::new_mins(60, 15) }
    }
}

/// The state of the client of the npm registry.
pub struct NpmClient<M> {
    pub cache: NpmCache<M>,
}

impl<M> NpmClient<M> {
    /// A client that has fetched nothing yet.
    pub fn new() -> (r: Self)
        ensures
            r.cache.is_new(),
    {
        NpmClient { cache: NpmCache::new() }
    }
}

} // verus!
