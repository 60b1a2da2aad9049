//! Where a `package.json` lists dependencies.
use crate::text::same_text;
use vstd::prelude::*;

verus! {

/// The kind of a dependency, by the section of the manifest that lists it.
#[derive(Debug, Clone, Copy, PartialEq, Eq, Hash)]
pub enum DependencyKind {
    Dependency,
    DevDependency,
    PeerDependency,
    OptionalDependency,
}

/// The kind of the dependencies that the section `section` lists, if it lists any.
pub open spec fn kind_of_section(section: Seq<char>) -> Option<DependencyKind> {
    if section == "dependencies"@ {
        Some(DependencyKind::Dependency)
    } else if section == "devDependencies"@ {
        Some(DependencyKind::DevDependency)
    } else if section == "peerDependencies"@ {
        Some(DependencyKind::PeerDependency)
    } else if section == "optionalDependencies"@ {
        Some(DependencyKind::OptionalDependency)
    } else {
        None
    }
}

impl DependencyKind {
    /// The kind of the dependencies that the section `s` lists; an error where `s` is no
    /// section of dependencies.
    pub fn from_str(s: &str) -> (r: Result<DependencyKind, ()>)
        ensures
            match r {
                Ok(kind) => kind_of_section(s@) == Some(kind),
                Err(_) => kind_of_section(s@) is None,
            },
    {
        if same_text(s, "dependencies") {
            Ok(DependencyKind::Dependency)
        } else if same_text(s, "devDependencies") {
            Ok(DependencyKind::DevDependency)
        } else if same_text(s, "peerDependencies") {
            Ok(DependencyKind::PeerDependency)
        } else if same_text(s, "optionalDependencies") {
            Ok(DependencyKind::OptionalDependency)
        } else {
            Err(())
        }
    }
}

} // verus!
