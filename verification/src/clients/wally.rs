//! The Wally registry: what its index tells of a package.
use crate::clients::github::GithubClient;
use crate::clients::shared::{distinct_names, has_distinct_names};
use crate::version::Versioned;
use vstd::prelude::*;

verus! {

/// Where a package can be used.
#[derive(Debug, Clone, Copy, PartialEq, Eq, Hash)]
pub enum MetadataRealm {
    Dev,
    Server,
    Shared,
}

/// What the index tells of a package apart from its dependencies.
#[derive(Debug, Clone, PartialEq, Eq)]
pub struct MetadataPackage {
    pub name: String,
    pub version: String,
    pub registry: String,
    pub realm: MetadataRealm,
    pub description: Option<String>,
    pub license: Option<String>,
    pub authors: Vec<String>,
    pub included: Vec<String>,
    pub excluded: Vec<String>,
    pub private: bool,
}

/// The dependencies of a package, each list by the names that the package gives them.
#[derive(Debug, Clone, PartialEq, Eq)]
pub struct MetadataDependencies {
    pub shared: Vec<(String, String)>,
    pub server: Vec<(String, String)>,
    pub dev: Vec<(String, String)>,
}

impl MetadataDependencies {
    /// Whether the dependencies are in order: in no list a name stands twice.
    pub open spec fn well_formed(&self) -> bool {
        &&& has_distinct_names(self.shared@)
        &&& has_distinct_names(self.server@)
        &&& has_distinct_names(self.dev@)
    }

    /// Decides whether the dependencies are in order.
    pub fn is_well_formed(&self) -> (b: bool)
        ensures
            b == self.well_formed(),
    {
        distinct_names(&self.shared) && distinct_names(&self.server) && distinct_names(&self.dev)
    }
}

/// One line of the index: a version of a package.
#[derive(Debug, Clone, PartialEq, Eq)]
pub struct Metadata {
    pub package: MetadataPackage,
    pub dependencies: MetadataDependencies,
}

impl MetadataRealm {
    /// The name of the realm in a manifest.
    pub fn name(&self) -> (r: &'static str)
        ensures
            r@ == match self {
                MetadataRealm::Dev => "dev"@,
                MetadataRealm::Server => "server"@,
                MetadataRealm::Shared => "shared"@,
            },
    {
        match self {
            MetadataRealm::Dev => "dev",
            MetadataRealm::Server => "server",
            MetadataRealm::Shared => "shared",
        }
    }

    /// The name of the section of a manifest that lists the dependencies of the realm.
    pub fn section_name(&self) -> (r: &'static str)
        ensures
            r@ == match self {
                MetadataRealm::Dev => "dev-dependencies"@,
                MetadataRealm::Server => "server-dependencies"@,
                MetadataRealm::Shared => "dependencies"@,
            },
    {
        match self {
            MetadataRealm::Dev => "dev-dependencies",
            MetadataRealm::Server => "server-dependencies",
            MetadataRealm::Shared => "dependencies",
        }
    }

    /// The realm to move a dependency to, where the realm `self` that it is listed under does
    /// not fit the realm `found_realm` of the package: a server package belongs under server,
    /// a dev package under dev. `None` where it can stay.
    pub fn get_suggested_realm(&self, found_realm: MetadataRealm) -> (r: Option<MetadataRealm>)
        ensures
            r == if found_realm == MetadataRealm::Shared || found_realm == *self {
                None
            } else {
                Some(found_realm)
            },
    {
        match (found_realm, self) {
            (MetadataRealm::Server, MetadataRealm::Dev)
            | (MetadataRealm::Server, MetadataRealm::Shared) => Some(MetadataRealm::Server),
            (MetadataRealm::Dev, MetadataRealm::Server)
            | (MetadataRealm::Dev, MetadataRealm::Shared) => Some(MetadataRealm::Dev),
            _ => None,
        }
    }
}

impl Versioned for Metadata {
    fn raw_version_string(&self) -> (r: String)
        ensures
            r@ == self.package.version@,
    {
        self.package.version.clone()
    }
}

/// The state of the client of the Wally registry.
#[derive(Debug, Clone)]
pub struct WallyClient {
    pub github: GithubClient,
}

impl WallyClient {
    /// A client that reaches the index through `github`.
    pub fn new(github: GithubClient) -> (r: Self)
        ensures
            r.github == github,
    {
        WallyClient { github }
    }
}

} // verus!
