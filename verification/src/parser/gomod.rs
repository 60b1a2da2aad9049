//! Where a `go.mod` lists dependencies.
use crate::text::same_text;
use vstd::prelude::*;

verus! {

/// Whether a node of the kind `kind` is a `require` directive, with one dependency or many.
pub fn is_require_directive(kind: &str) -> (b: bool)
    ensures
        b == (kind@ == "require_directive_single"@ || kind@ == "require_directive_multi"@),
{
    same_text(kind, "require_directive_single") || same_text(kind, "require_directive_multi")
}

} // verus!
