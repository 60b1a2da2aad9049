//! Where the parts of a dependency of a Wally manifest stand in its text.
use crate::parser::pyproject::{range_of, ByteRange};
use vstd::prelude::*;
use vstd::string::StringSliceAdditionalSpecFns;

verus! {

/// Where the parts of a dependency stand in its text, which is written `scope/name@version`.
#[derive(Debug, Clone, Copy, PartialEq, Eq)]
pub struct WallyDependencySpecRanges {
    pub owner: Option<ByteRange>,
    pub repository: Option<ByteRange>,
    pub version: Option<ByteRange>,
}

/// The place of the first byte `b` at or after `from`, or the length of the text.
pub open spec fn first_byte(bytes: Seq<u8>, b: u8, from: int) -> int
    decreases bytes.len() - from,
{
    if from >= bytes.len() {
        bytes.len() as int
    } else if bytes[from] == b {
        from
    } else {
        first_byte(bytes, b, from + 1)
    }
}

/// Where the parts of the dependency `bytes` stand.
///
/// The scope reaches to the first `/`. The name follows that `/`, where there is one, and
/// reaches to the first `@` after it. The version follows that `@`, where there is one, and
/// reaches to the end. A part that is there may be empty.
pub open spec fn split_spec(bytes: Seq<u8>) -> WallyDependencySpecRanges {
    let slash = first_byte(bytes, 47, 0);
    let at = first_byte(bytes, 64, slash);
    WallyDependencySpecRanges {
        owner: Some(range_of(0, slash)),
        repository: if slash < bytes.len() {
            Some(range_of(slash + 1, at))
        } else {
            None
        },
        version: if at < bytes.len() {
            Some(range_of(at + 1, bytes.len() as int))
        } else {
            None
        },
    }
}

/// The place of the first byte `b` of `bytes` at or after `from`, or the length of `bytes`.
fn find_byte(bytes: &[u8], b: u8, from: usize) -> (r: usize)
    requires
        from <= bytes.len(),
    ensures
        r == first_byte(bytes@, b, from as int),
        from <= r <= bytes.len(),
{
    let mut i: usize = from;
    while i < bytes.len() && bytes[i] != b
        invariant
            from <= i <= bytes.len(),
            first_byte(bytes@, b, from as int) == first_byte(bytes@, b, i as int),
        decreases bytes.len() - i,
    {
        i = i + 1;
    }
    i
}

/// Finds where the parts of a dependency stand in its text.
pub fn split_wally_ranges(text: &str) -> (r: WallyDependencySpecRanges)
    ensures
        r == split_spec(text.spec_bytes()),
{
    let bytes = text.as_bytes();
    let slash = find_byte(bytes, 47, 0);
    let at = find_byte(bytes, 64, slash);
    WallyDependencySpecRanges {
        owner: Some(ByteRange { start: 0, end: slash }),
        repository: if slash < bytes.len() {
            Some(ByteRange { start: slash + 1, end: at })
        } else {
            None
        },
        version: if at < bytes.len() {
            Some(ByteRange { start: at + 1, end: bytes.len() })
        } else {
            None
        },
    }
}

} // verus!
