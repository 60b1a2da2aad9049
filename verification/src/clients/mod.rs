//! The states of the clients of the registries, and what the registries tell.
use crate::clients::crates::CratesClient;
use crate::clients::github::GithubClient;
use crate::clients::npm::NpmClient;
use crate::clients::pypi::PyPiClient;
use crate::clients::wally::WallyClient;
use vstd::prelude::*;

pub mod crates;
pub mod github;
pub mod golang;
pub mod npm;
pub mod pypi;
pub mod shared;
pub mod wally;

verus! {

/// The clients of all registries. `I`, `S` and `M` are what crates.io tells of a crate and of
/// a search, `N` what npm tells of a package.
pub struct Clients<I, S, M, N> {
    pub crates: CratesClient<I, S, M>,
    pub github: GithubClient,
    pub npm: NpmClient<N>,
    pub pypi: PyPiClient,
    pub wally: WallyClient,
}

impl<I, S, M, N> Clients<I, S, M, N> {
    /// Clients that have fetched nothing yet and show no token.
    pub fn new() -> (r: Self)
        ensures
            r.github.token is None,
            r.wally.github.token is None,
            r.crates.cache.is_new(),
            r.npm.cache.is_new(),
            r.pypi.cache.is_new(),
    {
        let crates = CratesClient::new();
        let github = GithubClient::new();
        let npm = NpmClient::new();
        let pypi = PyPiClient::new();
        let wally = WallyClient::new(GithubClient::new());
        Clients { crates, github, npm, pypi, wally }
    }
}

} // verus!
