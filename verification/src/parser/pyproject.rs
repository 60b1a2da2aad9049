//! Where a `pyproject.toml` lists dependencies.
use crate::text::same_text;
use vstd::prelude::*;
use vstd::string::StringSliceAdditionalSpecFns;

verus! {

/// The kind of a dependency, by the table of the manifest that lists it.
#[derive(Debug, Clone, Copy, PartialEq, Eq, Hash)]
pub enum DependencyKind {
    Dependency,
    OptionalDependency,
    DependencyGroup,
    BuildRequirement,
}

/// The kind of the dependencies under the key `key` of the table whose name has the parts
/// `parts`, if they are dependencies: `project.dependencies`, anything under
/// `project.optional-dependencies` or `dependency-groups`, and `build-system.requires`; a
/// `_` may stand for the `-` of a table's name.
pub open spec fn kind_of_entry(parts: Seq<Seq<char>>, key: Seq<char>) -> Option<DependencyKind> {
    if parts.len() > 0 && parts[0] == "project"@ {
        if parts.len() == 1 && key == "dependencies"@ {
            Some(DependencyKind::Dependency)
        } else if parts.len() == 2 && (parts[1] == "optional-dependencies"@ || parts[1]
            == "optional_dependencies"@) {
            Some(DependencyKind::OptionalDependency)
        } else {
            None
        }
    } else if parts.len() == 1 {
        if parts[0] == "dependency-groups"@ || parts[0] == "dependency_groups"@ {
            Some(DependencyKind::DependencyGroup)
        } else if (parts[0] == "build-system"@ || parts[0] == "build_system"@) && key
            == "requires"@ {
            Some(DependencyKind::BuildRequirement)
        } else {
            None
        }
    } else {
        None
    }
}

/// The kind of the dependencies under the key `key` of the table whose name has the parts
/// `parts`, if they are dependencies.
pub fn check_dependencies(parts: &Vec<String>, key: &str) -> (r: Option<DependencyKind>)
    ensures
        r == kind_of_entry(Seq::new(parts@.len(), |i: int| parts@[i]@), key@),
{
    let ghost p = Seq::new(parts@.len(), |i: int| parts@[i]@);
    if parts.len() > 0 && same_text(parts[0].as_str(), "project") {
        assert(p[0] == parts@[0]@);
        if parts.len() == 1 && same_text(key, "dependencies") {
            return Some(DependencyKind::Dependency);
        }
        if parts.len() == 2 {
            assert(p[1] == parts@[1]@);
            if same_text(parts[1].as_str(), "optional-dependencies") || same_text(
                parts[1].as_str(),
                "optional_dependencies",
            ) {
                return Some(DependencyKind::OptionalDependency);
            }
        }
    } else if parts.len() == 1 {
        assert(p[0] == parts@[0]@);
        if same_text(parts[0].as_str(), "dependency-groups") || same_text(
            parts[0].as_str(),
            "dependency_groups",
        ) {
            return Some(DependencyKind::DependencyGroup);
        }
        if (same_text(parts[0].as_str(), "build-system") || same_text(
            parts[0].as_str(),
            "build_system",
        )) && same_text(key, "requires") {
            return Some(DependencyKind::BuildRequirement);
        }
    }
    None
}

/// A part of a text, by the bytes at which it starts and ends.
#[derive(Debug, Clone, Copy, PartialEq, Eq)]
pub struct ByteRange {
    pub start: usize,
    pub end: usize,
}

/// Where the parts of a dependency stand in its text: the name of the package, the versions
/// that are asked for, and the extras with their brackets.
#[derive(Debug, Clone, Copy, PartialEq, Eq)]
pub struct PyProjectDependencySpecRanges {
    pub name: Option<ByteRange>,
    pub version: Option<ByteRange>,
    pub extras: Option<ByteRange>,
}

/// What has been seen of a dependency so far.
pub struct Scanned {
    /// Where the last byte that is no white space ends.
    pub end: int,
    /// Where the first `[` stands.
    pub extras_start: Option<int>,
    /// Where the `]` that closes it ends.
    pub extras_end: Option<int>,
    /// Where the first operator of a version stands that is not within the extras.
    pub version_start: Option<int>,
    /// Whether the extras are open.
    pub in_extras: bool,
}

/// Whether `b` is white space of ASCII.
pub open spec fn is_ascii_space(b: u8) -> bool {
    b == 32 || b == 9 || b == 10 || b == 12 || b == 13
}

/// Whether `b` is one of `> < = ~ !`, of which the operators of versions are made.
pub open spec fn is_operator_byte(b: u8) -> bool {
    b == 62 || b == 60 || b == 61 || b == 126 || b == 33
}

/// What seeing the byte `b` at the place `i` adds to what has been seen.
pub open spec fn scan_byte(s: Scanned, i: int, b: u8) -> Scanned {
    let t = if b == 91 && s.extras_start is None {
        Scanned { extras_start: Some(i), in_extras: true, ..s }
    } else if b == 93 && s.in_extras {
        Scanned { extras_end: Some(i + 1), in_extras: false, ..s }
    } else if !s.in_extras && s.version_start is None && (s.extras_end is Some
        || s.extras_start is None) && is_operator_byte(b) {
        Scanned { version_start: Some(i), ..s }
    } else {
        s
    };
    if is_ascii_space(b) {
        t
    } else {
        Scanned { end: i + 1, ..t }
    }
}

/// What has been seen after the first `n` bytes.
pub open spec fn scanned(bytes: Seq<u8>, n: int) -> Scanned
    decreases n,
{
    if n <= 0 {
        Scanned {
            end: 0,
            extras_start: None,
            extras_end: None,
            version_start: None,
            in_extras: false,
        }
    } else {
        scan_byte(scanned(bytes, n - 1), n - 1, bytes[n - 1])
    }
}

/// The place of the first `;` at or after `from`, where the environment markers start, or
/// the length of the text.
pub open spec fn markers_start(bytes: Seq<u8>, from: int) -> int
    decreases bytes.len() - from,
{
    if from >= bytes.len() {
        bytes.len() as int
    } else if bytes[from] == 59 {
        from
    } else {
        markers_start(bytes, from + 1)
    }
}

/// Where the last byte before `n` that is no white space ends, or zero.
pub open spec fn content_end(bytes: Seq<u8>, n: int) -> int
    decreases n,
{
    if n <= 0 {
        0
    } else if !is_ascii_space(bytes[n - 1]) {
        n
    } else {
        content_end(bytes, n - 1)
    }
}

/// The lesser of two places that may be missing, or `fallback` where both are.
pub open spec fn first_of(a: Option<int>, b: Option<int>, fallback: int) -> int {
    match (a, b) {
        (Some(x), Some(y)) => if x <= y {
            x
        } else {
            y
        },
        (Some(x), None) => x,
        (None, Some(y)) => y,
        (None, None) => fallback,
    }
}

/// A range between two places.
pub open spec fn range_of(start: int, end: int) -> ByteRange {
    ByteRange { start: start as usize, end: end as usize }
}

/// Where the parts of the dependency `bytes` stand.
///
/// The text is read up to the first `;`. The versions reach from their first operator to the
/// end of what was read, less the white space there. The extras reach from the first `[` to
/// the `]` that closes it. The name reaches from the start to the extras or the versions,
/// whichever come first, less the white space before them.
pub open spec fn split_ranges(bytes: Seq<u8>) -> PyProjectDependencySpecRanges {
    let s = scanned(bytes, markers_start(bytes, 0));
    if s.end == 0 {
        PyProjectDependencySpecRanges { name: None, version: None, extras: None }
    } else {
        let name_end = content_end(bytes, first_of(s.extras_start, s.version_start, s.end));
        PyProjectDependencySpecRanges {
            name: if name_end > 0 {
                Some(range_of(0, name_end))
            } else {
                None
            },
            version: match s.version_start {
                Some(start) => Some(range_of(start, s.end)),
                None => None,
            },
            extras: match (s.extras_start, s.extras_end) {
                (Some(start), Some(end)) => Some(range_of(start, end)),
                _ => None,
            },
        }
    }
}

/// Finds where the parts of a dependency stand in its text.
pub fn split_pep508_ranges(text: &str) -> (r: PyProjectDependencySpecRanges)
    ensures
        r == split_ranges(text.spec_bytes()),
{
    let bytes = text.as_bytes();
    let mut end: usize = 0;
    let mut extras_start: Option<usize> = None;
    let mut extras_end: Option<usize> = None;
    let mut version_start: Option<usize> = None;
    let mut in_extras = false;
    let mut i: usize = 0;
    while i < bytes.len() && bytes[i] != 59
        invariant
            i <= bytes.len(),
            bytes@ == text.spec_bytes(),
            markers_start(bytes@, 0) == markers_start(bytes@, i as int),
            end <= i,
            extras_start matches Some(x) ==> x < i,
            extras_end matches Some(x) ==> x <= i,
            version_start matches Some(x) ==> x < i,
            scanned(bytes@, i as int) == (Scanned {
                end: end as int,
                extras_start: match extras_start {
                    Some(x) => Some(x as int),
                    None => None,
                },
                extras_end: match extras_end {
                    Some(x) => Some(x as int),
                    None => None,
                },
                version_start: match version_start {
                    Some(x) => Some(x as int),
                    None => None,
                },
                in_extras,
            }),
        decreases bytes.len() - i,
    {
        let b = bytes[i];
        if b == 91 && extras_start.is_none() {
            extras_start = Some(i);
            in_extras = true;
        } else if b == 93 && in_extras {
            extras_end = Some(i + 1);
            in_extras = false;
        } else if !in_extras && version_start.is_none() && (extras_end.is_some()
            || extras_start.is_none()) && (b == 62 || b == 60 || b == 61 || b == 126 || b == 33) {
            version_start = Some(i);
        }
        if !(b == 32 || b == 9 || b == 10 || b == 12 || b == 13) {
            end = i + 1;
        }
        i = i + 1;
    }
    if end == 0 {
        return PyProjectDependencySpecRanges { name: None, version: None, extras: None };
    }
    let boundary = match (extras_start, version_start) {
        (Some(x), Some(y)) => if x <= y {
            x
        } else {
            y
        },
        (Some(x), None) => x,
        (None, Some(y)) => y,
        (None, None) => end,
    };
    let mut name_end: usize = boundary;
    while name_end > 0 && (bytes[name_end - 1] == 32 || bytes[name_end - 1] == 9 || bytes[name_end
        - 1] == 10 || bytes[name_end - 1] == 12 || bytes[name_end - 1] == 13)
        invariant
            name_end <= boundary <= bytes.len(),
            content_end(bytes@, boundary as int) == content_end(bytes@, name_end as int),
        decreases name_end,
    {
        name_end = name_end - 1;
    }
    PyProjectDependencySpecRanges {
        name: if name_end > 0 {
            Some(ByteRange { start: 0, end: name_end })
        } else {
            None
        },
        version: match version_start {
            Some(start) => Some(ByteRange { start, end }),
            None => None,
        },
        extras: match (extras_start, extras_end) {
            (Some(start), Some(end)) => Some(ByteRange { start, end }),
            _ => None,
        },
    }
}

/// The place of the first byte at or after `from` and before `to` that is no white space, or
/// `to`.
pub open spec fn content_start(bytes: Seq<u8>, from: int, to: int) -> int
    decreases to - from,
{
    if from >= to {
        to
    } else if !is_ascii_space(bytes[from]) {
        from
    } else {
        content_start(bytes, from + 1, to)
    }
}

/// Where the last byte at or after `from` and before `to` that is no white space ends, or
/// `from`.
pub open spec fn content_stop(bytes: Seq<u8>, from: int, to: int) -> int
    decreases to - from,
{
    if to <= from {
        from
    } else if !is_ascii_space(bytes[to - 1]) {
        to
    } else {
        content_stop(bytes, from, to - 1)
    }
}

/// The part between `from` and `to` without the white space around it, as a list of its own,
/// or nothing where nothing is left.
pub open spec fn piece(bytes: Seq<u8>, from: int, to: int) -> Seq<ByteRange> {
    let start = content_start(bytes, from, to);
    let stop = content_stop(bytes, start, to);
    if start < stop {
        seq![range_of(start, stop)]
    } else {
        Seq::empty()
    }
}

/// The parts between commas from `start` to `end`, each without the white space around it,
/// where the part that starts at `start` is known to hold no comma before `pos`.
pub open spec fn pieces_from(bytes: Seq<u8>, start: int, pos: int, end: int) -> Seq<ByteRange>
    decreases end - pos,
{
    if pos >= end {
        piece(bytes, start, end)
    } else if bytes[pos] == 44 {
        piece(bytes, start, pos) + pieces_from(bytes, pos + 1, pos + 1, end)
    } else {
        pieces_from(bytes, start, pos + 1, end)
    }
}

/// Where each extra stands in the text of a dependency whose extras, with their brackets,
/// stand at `extras`: the parts between the brackets that commas set apart, each without the
/// white space around it, and none that is empty.
pub fn extra_ranges(text: &str, extras: ByteRange) -> (r: Vec<ByteRange>)
    requires
        extras.start < extras.end <= text.spec_bytes().len(),
    ensures
        r@ == pieces_from(
            text.spec_bytes(),
            extras.start + 1,
            extras.start + 1,
            if extras.end - 1 > extras.start {
                extras.end - 1
            } else {
                extras.start + 1
            },
        ),
{
    let bytes = text.as_bytes();
    let end: usize = if extras.end - 1 > extras.start {
        extras.end - 1
    } else {
        extras.start + 1
    };
    let mut r: Vec<ByteRange> = Vec::new();
    let mut from: usize = extras.start + 1;
    loop
        invariant_except_break
            r@ + pieces_from(bytes@, from as int, from as int, end as int) == pieces_from(
                bytes@,
                extras.start + 1,
                extras.start + 1,
                end as int,
            ),
        invariant
            extras.start < from <= end <= bytes.len(),
            bytes@ == text.spec_bytes(),
        ensures
            r@ == pieces_from(bytes@, extras.start + 1, extras.start + 1, end as int),
        decreases end - from,
    {
        let mut stop: usize = from;
        while stop < end && bytes[stop] != 44
            invariant
                from <= stop <= end <= bytes.len(),
                pieces_from(bytes@, from as int, from as int, end as int) == pieces_from(
                    bytes@,
                    from as int,
                    stop as int,
                    end as int,
                ),
            decreases end - stop,
        {
            stop = stop + 1;
        }
        let mut a: usize = from;
        while a < stop && (bytes[a] == 32 || bytes[a] == 9 || bytes[a] == 10 || bytes[a] == 12
            || bytes[a] == 13)
            invariant
                from <= a <= stop <= bytes.len(),
                content_start(bytes@, from as int, stop as int) == content_start(
                    bytes@,
                    a as int,
                    stop as int,
                ),
            decreases stop - a,
        {
            a = a + 1;
        }
        let mut b: usize = stop;
        while b > a && (bytes[b - 1] == 32 || bytes[b - 1] == 9 || bytes[b - 1] == 10 || bytes[b
            - 1] == 12 || bytes[b - 1] == 13)
            invariant
                a <= b <= stop <= bytes.len(),
                content_stop(bytes@, a as int, stop as int) == content_stop(
                    bytes@,
                    a as int,
                    b as int,
                ),
            decreases b,
        {
            b = b - 1;
        }
        let ghost before = r@;
        let ghost part = piece(bytes@, from as int, stop as int);
        if a < b {
            r.push(ByteRange { start: a, end: b });
        }
        assert(r@ =~= before + part);
        if stop >= end {
            assert(before + part == pieces_from(
                bytes@,
                extras.start + 1,
                extras.start + 1,
                end as int,
            ));
            break ;
        }
        assert(before + (part + pieces_from(bytes@, stop + 1, stop + 1, end as int)) =~= before
            + part + pieces_from(bytes@, stop + 1, stop + 1, end as int));
        from = stop + 1;
    }
    r
}

/// Whether the extras of a dependency can be asked for: they lie within its text.
pub fn lies_within(text: &str, extras: ByteRange) -> (b: bool)
    ensures
        b == (extras.start < extras.end <= text.spec_bytes().len()),
{
    extras.start < extras.end && extras.end <= text.as_bytes().len()
}

} // verus!
