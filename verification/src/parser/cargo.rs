//! Where a `Cargo.toml` lists dependencies.
use crate::text::same_text;
use vstd::prelude::*;

verus! {

/// Whether a table of the name `name` lists dependencies.
pub open spec fn lists_dependencies(name: Seq<char>) -> bool {
    name == "dependencies"@ || name == "dev-dependencies"@ || name == "build-dependencies"@
}

/// Whether the table whose name has the parts `parts` lists dependencies: its last part says
/// so, whatever stands before it, as in `workspace.dependencies` or under a target.
pub fn is_dependency_table(parts: &Vec<String>) -> (b: bool)
    ensures
        b == (parts@.len() > 0 && lists_dependencies(parts@.last()@)),
{
    if parts.len() == 0 {
        return false;
    }
    let last = parts[parts.len() - 1].as_str();
    same_text(last, "dependencies") || same_text(last, "dev-dependencies") || same_text(
        last,
        "build-dependencies",
    )
}

} // verus!
