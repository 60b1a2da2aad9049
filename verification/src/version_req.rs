//! Requirements of the first scheme, and the lowest version that one lets in.
use crate::text::{trim, trimmed};
use crate::version::{Version, VersionView};
use vstd::prelude::*;

verus! {

/// The operator of a comparator.
#[derive(Debug, Clone, Copy, PartialEq, Eq)]
pub enum Op {
    Exact,
    Greater,
    GreaterEq,
    Less,
    LessEq,
    Tilde,
    Caret,
    Wildcard,
    /// An operator that `semver` may come to have and that this library does not know.
    Other,
}

/// One comparator of a requirement: an operator and a version of which the minor and the
/// patch number may be left out.
#[derive(Debug, Clone, Copy, PartialEq, Eq)]
pub struct Comparator {
    pub op: Op,
    pub major: u64,
    pub minor: Option<u64>,
    pub patch: Option<u64>,
}

/// A requirement: comparators that a version has to meet all at once.
#[derive(Debug, Clone, PartialEq, Eq)]
pub struct VersionReq {
    pub comparators: Vec<Comparator>,
}

/// Three numbers that may lie beyond what a version can hold.
pub type Release = (int, int, int);

/// The order of versions without prerelease: by major, then minor, then patch number.
pub open spec fn release_le(a: Release, b: Release) -> bool {
    a.0 < b.0 || (a.0 == b.0 && (a.1 < b.1 || (a.1 == b.1 && a.2 <= b.2)))
}

/// Whether each of the three numbers fits a version.
pub open spec fn release_fits(a: Release) -> bool {
    0 <= a.0 <= u64::MAX && 0 <= a.1 <= u64::MAX && 0 <= a.2 <= u64::MAX
}

/// The three numbers of a version.
pub open spec fn release_of(v: VersionView) -> Release {
    (v.major as int, v.minor as int, v.patch as int)
}

/// Whether `v` is `r` with no prerelease and no build metadata.
pub open spec fn is_plain(v: VersionView, r: Release) -> bool {
    release_of(v) == r && v.pre.len() == 0 && v.build.len() == 0
}

/// The comparator's version, with a zero for each number that was left out.
pub open spec fn base_of(c: Comparator) -> Release {
    (
        c.major as int,
        (match c.minor {
            Some(m) => m as int,
            None => 0,
        }),
        (match c.patch {
            Some(p) => p as int,
            None => 0,
        }),
    )
}

/// The comparator's version with the last number that was given raised by one, and zeros
/// after it.
pub open spec fn bumped(c: Comparator) -> Release {
    match c.minor {
        Some(m) => match c.patch {
            Some(p) => (c.major as int, m as int, p + 1),
            None => (c.major as int, m + 1, 0),
        },
        None => (c.major + 1, 0, 0),
    }
}

/// The comparator's version with its minor number raised by one where one was given, else its
/// major number, and zeros after it.
pub open spec fn next_line(c: Comparator) -> Release {
    match c.minor {
        Some(m) => (c.major as int, m + 1, 0),
        None => (c.major + 1, 0, 0),
    }
}

/// The versions that one comparator puts forward as candidates for the lowest version.
pub open spec fn candidates_of(c: Comparator) -> Seq<Release> {
    let base = base_of(c);
    match c.op {
        Op::Exact | Op::GreaterEq | Op::Less | Op::Other => seq![base],
        Op::Greater => seq![bumped(c)],
        Op::LessEq => if c.patch is None {
            seq![next_line(c)]
        } else {
            seq![base]
        },
        Op::Tilde => if c.patch is Some {
            seq![base, (base.0, base.1 + 1, 0)]
        } else {
            seq![base, next_line(c)]
        },
        Op::Caret => if c.major > 0 {
            seq![base, (c.major + 1, 0, 0)]
        } else if base.1 > 0 {
            seq![base, (0, base.1 + 1, 0)]
        } else if c.patch is Some {
            seq![base]
        } else if c.minor is None {
            seq![(0, 0, 0)]
        } else {
            seq![(0, 0, 0), (1, 0, 0)]
        },
        Op::Wildcard => seq![(base.0, base.1, 0), next_line(c)],
    }
}

/// The candidates of all comparators, in the order of the comparators.
pub open spec fn candidates(cs: Seq<Comparator>) -> Seq<Release>
    decreases cs.len(),
{
    if cs.len() == 0 {
        Seq::empty()
    } else {
        candidates(cs.drop_last()) + candidates_of(cs.last())
    }
}

/// Whether each of `s` fits a version.
pub open spec fn all_fit(s: Seq<Release>) -> bool {
    forall|i: int| 0 <= i < s.len() ==> release_fits(#[trigger] s[i])
}

/// Whether every candidate fits a version.
pub open spec fn candidates_fit(cs: Seq<Comparator>) -> bool {
    all_fit(candidates(cs))
}

/// Whether `m` is the lowest of `s`.
pub open spec fn is_lowest(m: Release, s: Seq<Release>) -> bool {
    s.contains(m) && forall|i: int| 0 <= i < s.len() ==> release_le(m, #[trigger] s[i])
}

/// What `semver::VersionReq::parse` makes of `text`: the comparators, or `None` where it
/// reports an error.
pub uninterp spec fn semver_requirement(text: Seq<char>) -> Option<Seq<Comparator>>;

/// `semver::VersionReq::parse`, its comparators taken apart into plain values; the prerelease
/// of a comparator is left behind. The contract names what comes back.
#[verifier::external_body]
pub(crate) fn semver_parse_requirement(text: &str) -> (r: Option<VersionReq>)
    ensures
        match r {
            Some(q) => semver_requirement(text@) == Some(q.comparators@),
            None => semver_requirement(text@) is None,
        },
{
    let parsed = semver::VersionReq::parse(text).ok()?;
    let plain = |c: &semver::Comparator| Comparator {
        op: match c.op {
            semver::Op::Exact => Op::Exact, semver::Op::Greater => Op::Greater,
            semver::Op::GreaterEq => Op::GreaterEq, semver::Op::Less => Op::Less,
            semver::Op::LessEq => Op::LessEq, semver::Op::Tilde => Op::Tilde,
            semver::Op::Caret => Op::Caret, semver::Op::Wildcard => Op::Wildcard,
            _ => Op::Other,
        },
        major: c.major, minor: c.minor, patch: c.patch,
    };
    Some(VersionReq { comparators: parsed.comparators.iter().map(plain).collect() })
}

/// The requirement that `raw` holds once the white space around it is left out, if it is one.
pub fn parse_version_req(raw: &str) -> (r: Option<VersionReq>)
    ensures
        match r {
            Some(q) => semver_requirement(trimmed(raw@)) == Some(q.comparators@),
            None => semver_requirement(trimmed(raw@)) is None,
        },
{
    let core = trim(raw);
    semver_parse_requirement(core.as_str())
}

fn plain_version(major: u64, minor: u64, patch: u64) -> (v: Version)
    ensures
        is_plain(v@, (major as int, minor as int, patch as int)),
{
    Version::new(major, minor, patch)
}

fn number_or_zero(n: Option<u64>) -> (r: u64)
    ensures
        r == match n {
            Some(m) => m,
            None => 0,
        },
{
    match n {
        Some(m) => m,
        None => 0,
    }
}

/// Puts the candidates of `c` at the end of `out`.
fn push_candidates(out: &mut Vec<Version>, c: &Comparator)
    requires
        forall|i: int| 0 <= i < candidates_of(*c).len() ==> release_fits(#[trigger] candidates_of(*c)[i]),
    ensures
        final(out)@.len() == old(out)@.len() + candidates_of(*c).len(),
        forall|i: int| 0 <= i < old(out)@.len() ==> final(out)@[i] == old(out)@[i],
        forall|i: int|
            0 <= i < candidates_of(*c).len() ==> is_plain(
                #[trigger] final(out)@[old(out)@.len() + i]@,
                candidates_of(*c)[i],
            ),
{
    let major = c.major;
    let minor = number_or_zero(c.minor);
    let patch = number_or_zero(c.patch);
    proof {
        let s = candidates_of(*c);
        assert(s.len() > 0);
        assert(release_fits(s[0]));
        if s.len() > 1 {
            assert(release_fits(s[1]));
        }
    }
    match c.op {
        Op::Exact | Op::GreaterEq | Op::Less | Op::Other => {
            out.push(plain_version(major, minor, patch));
        },
        Op::Greater => {
            match c.minor {
                Some(m) => match c.patch {
                    Some(p) => {
                        out.push(plain_version(major, m, p + 1));
                    },
                    None => {
                        out.push(plain_version(major, m + 1, 0));
                    },
                },
                None => {
                    out.push(plain_version(major + 1, 0, 0));
                },
            }
        },
        Op::LessEq => {
            if c.patch.is_none() {
                match c.minor {
                    Some(m) => {
                        out.push(plain_version(major, m + 1, 0));
                    },
                    None => {
                        out.push(plain_version(major + 1, 0, 0));
                    },
                }
            } else {
                out.push(plain_version(major, minor, patch));
            }
        },
        Op::Tilde => {
            out.push(plain_version(major, minor, patch));
            if c.patch.is_some() || c.minor.is_some() {
                out.push(plain_version(major, minor + 1, 0));
            } else {
                out.push(plain_version(major + 1, 0, 0));
            }
        },
        Op::Caret => {
            if major > 0 {
                out.push(plain_version(major, minor, patch));
                out.push(plain_version(major + 1, 0, 0));
            } else if minor > 0 {
                out.push(plain_version(major, minor, patch));
                out.push(plain_version(0, minor + 1, 0));
            } else if c.patch.is_some() {
                out.push(plain_version(major, minor, patch));
            } else if c.minor.is_none() {
                out.push(plain_version(0, 0, 0));
            } else {
                out.push(plain_version(0, 0, 0));
                out.push(plain_version(1, 0, 0));
            }
        },
        Op::Wildcard => {
            out.push(plain_version(major, minor, 0));
            if c.minor.is_some() {
                out.push(plain_version(major, minor + 1, 0));
            } else {
                out.push(plain_version(major + 1, 0, 0));
            }
        },
    }
}

/// The candidates of one more comparator are those of the comparators before it, then its own.
proof fn lemma_candidates_step(cs: Seq<Comparator>, n: int)
    requires
        0 <= n < cs.len(),
    ensures
        candidates(cs.subrange(0, n + 1)) == candidates(cs.subrange(0, n)) + candidates_of(cs[n]),
{
    let s = cs.subrange(0, n + 1);
    assert(s.drop_last() =~= cs.subrange(0, n));
    assert(s.last() == cs[n]);
}

/// The versions that the comparators of `req` put forward, in the order of the comparators.
pub fn possible_versions_for_req(req: &VersionReq) -> (r: Vec<Version>)
    requires
        candidates_fit(req.comparators@),
    ensures
        r@.len() == candidates(req.comparators@).len(),
        forall|i: int|
            0 <= i < r@.len() ==> is_plain(#[trigger] r@[i]@, candidates(req.comparators@)[i]),
{
    let ghost cs = req.comparators@;
    let mut out: Vec<Version> = Vec::new();
    let mut n: usize = 0;
    assert(cs.subrange(0, 0) =~= Seq::<Comparator>::empty());
    while n < req.comparators.len()
        invariant
            n <= req.comparators.len(),
            cs == req.comparators@,
            candidates_fit(cs),
            out@.len() == candidates(cs.subrange(0, n as int)).len(),
            forall|i: int|
                0 <= i < out@.len() ==> is_plain(
                    #[trigger] out@[i]@,
                    candidates(cs.subrange(0, n as int))[i],
                ),
        decreases req.comparators.len() - n,
    {
        let ghost before = candidates(cs.subrange(0, n as int));
        let ghost own = candidates_of(cs[n as int]);
        proof {
            lemma_candidates_step(cs, n as int);
            lemma_candidates_prefix(cs, n as int + 1);
            assert forall|i: int| 0 <= i < own.len() implies release_fits(#[trigger] own[i]) by {
                let upto = candidates(cs.subrange(0, n as int + 1));
                assert(upto == before + own);
                assert(upto[before.len() + i] == own[i]);
                assert(upto[before.len() + i] == candidates(cs)[before.len() + i]);
            }
        }
        let ghost old_out = out@;
        push_candidates(&mut out, &req.comparators[n]);
        proof {
            assert forall|i: int| 0 <= i < out@.len() implies is_plain(
                #[trigger] out@[i]@,
                (before + own)[i],
            ) by {
                if i < old_out.len() {
                    assert(out@[i] == old_out[i]);
                } else {
                    let k = i - old_out.len();
                    assert(is_plain(out@[old_out.len() + k]@, own[k]));
                }
            }
        }
        n = n + 1;
    }
    assert(cs.subrange(0, n as int) =~= cs);
    out
}

/// The candidates of the first `n` comparators open the candidates of all of them.
proof fn lemma_candidates_prefix(cs: Seq<Comparator>, n: int)
    requires
        0 <= n <= cs.len(),
    ensures
        candidates(cs.subrange(0, n)).len() <= candidates(cs).len(),
        forall|i: int|
            0 <= i < candidates(cs.subrange(0, n)).len() ==> candidates(cs.subrange(0, n))[i]
                == candidates(cs)[i],
    decreases cs.len() - n,
{
    if n == cs.len() {
        assert(cs.subrange(0, n) =~= cs);
    } else {
        lemma_candidates_step(cs, n);
        lemma_candidates_prefix(cs, n + 1);
    }
}

/// Whether `v` is the lowest of the candidates `c`, without prerelease and build metadata, or
/// `0.0.0` where there is no candidate.
pub open spec fn is_minimum_of(v: VersionView, c: Seq<Release>) -> bool {
    &&& v.pre.len() == 0
    &&& v.build.len() == 0
    &&& if c.len() == 0 {
        release_of(v) == (0int, 0int, 0int)
    } else {
        is_lowest(release_of(v), c)
    }
}

/// Deriving one version from a requirement.
pub trait VersionReqExt {
    /// The candidates that the requirement puts forward.
    spec fn candidates(&self) -> Seq<Release>;

    /// Whether the requirement has a lowest version: every candidate fits a version.
    fn has_minimum_version(&self) -> (b: bool)
        ensures
            b == all_fit(self.candidates()),
    ;

    /// The lowest of the candidates, or `0.0.0` where there is none; `None` where a candidate
    /// asks for a number beyond what a version can hold.
    fn minimum_version(&self) -> (r: Option<Version>)
        ensures
            match r {
                Some(v) => all_fit(self.candidates()) && is_minimum_of(v@, self.candidates()),
                None => !all_fit(self.candidates()),
            },
    ;
}

/// The lowest of the candidates of `req`, or `0.0.0` where there is none.
fn lowest_version(req: &VersionReq) -> (v: Version)
    requires
        candidates_fit(req.comparators@),
    ensures
        is_minimum_of(v@, candidates(req.comparators@)),
{
    let all = possible_versions_for_req(req);
    let ghost s = candidates(req.comparators@);
    if all.len() == 0 {
        return Version::new(0, 0, 0);
    }
    let mut best: usize = 0;
    let mut i: usize = 1;
    while i < all.len()
        invariant
            1 <= i <= all.len(),
            best < i,
            all@.len() == s.len(),
            forall|k: int| 0 <= k < all@.len() ==> is_plain(#[trigger] all@[k]@, s[k]),
            forall|k: int| 0 <= k < i ==> release_le(s[best as int], #[trigger] s[k]),
        decreases all.len() - i,
    {
        let a = &all[i];
        let b = &all[best];
        assert(is_plain(all@[i as int]@, s[i as int]));
        assert(is_plain(all@[best as int]@, s[best as int]));
        if a.major < b.major || (a.major == b.major && (a.minor < b.minor || (a.minor
            == b.minor && a.patch < b.patch))) {
            best = i;
        }
        i = i + 1;
    }
    let w = &all[best];
    assert(is_plain(all@[best as int]@, s[best as int]));
    plain_version(w.major, w.minor, w.patch)
}

fn comparator_fits(c: &Comparator) -> (b: bool)
    ensures
        b == (forall|i: int|
            0 <= i < candidates_of(*c).len() ==> release_fits(#[trigger] candidates_of(*c)[i])),
{
    let minor = number_or_zero(c.minor);
    let patch = number_or_zero(c.patch);
    let ghost s = candidates_of(*c);
    let b = match c.op {
        Op::Exact | Op::GreaterEq | Op::Less | Op::Other => true,
        Op::Greater => match c.minor {
            Some(m) => match c.patch {
                Some(p) => p < u64::MAX,
                None => m < u64::MAX,
            },
            None => c.major < u64::MAX,
        },
        Op::LessEq => if c.patch.is_none() {
            match c.minor {
                Some(m) => m < u64::MAX,
                None => c.major < u64::MAX,
            }
        } else {
            true
        },
        Op::Tilde => if c.patch.is_some() || c.minor.is_some() {
            minor < u64::MAX
        } else {
            c.major < u64::MAX
        },
        Op::Wildcard => if c.minor.is_some() {
            minor < u64::MAX
        } else {
            c.major < u64::MAX
        },
        Op::Caret => if c.major > 0 {
            c.major < u64::MAX
        } else {
            minor < u64::MAX
        },
    };
    proof {
        assert(s.len() > 0);
        if b {
            assert forall|i: int| 0 <= i < s.len() implies release_fits(#[trigger] s[i]) by {
                if i > 0 {
                    assert(i == 1);
                }
            }
        } else {
            if s.len() == 1 {
                assert(!release_fits(s[0]));
            } else {
                assert(!release_fits(s[1]));
            }
        }
    }
    b
}

impl VersionReqExt for VersionReq {
    open spec fn candidates(&self) -> Seq<Release> {
        candidates(self.comparators@)
    }

    fn has_minimum_version(&self) -> (b: bool) {
        let ghost cs = self.comparators@;
        let mut n: usize = 0;
        assert(cs.subrange(0, 0) =~= Seq::<Comparator>::empty());
        while n < self.comparators.len()
            invariant
                n <= self.comparators.len(),
                cs == self.comparators@,
                forall|i: int|
                    0 <= i < candidates(cs.subrange(0, n as int)).len() ==> release_fits(
                        #[trigger] candidates(cs.subrange(0, n as int))[i],
                    ),
            decreases self.comparators.len() - n,
        {
            let ghost before = candidates(cs.subrange(0, n as int));
            let ghost own = candidates_of(cs[n as int]);
            proof {
                lemma_candidates_step(cs, n as int);
                lemma_candidates_prefix(cs, n as int + 1);
            }
            if !comparator_fits(&self.comparators[n]) {
                proof {
                    let k = choose|k: int| 0 <= k < own.len() && !release_fits(#[trigger] own[k]);
                    let upto = candidates(cs.subrange(0, n as int + 1));
                    let at = before.len() + k;
                    assert(upto == before + own);
                    assert(upto[at] == own[k]);
                    assert(upto[at] == candidates(cs)[at]);
                    assert(0 <= at < self.candidates().len());
                    assert(!release_fits(self.candidates()[at]));
                }
                return false;
            }
            proof {
                assert forall|i: int| 0 <= i < (before + own).len() implies release_fits(
                    #[trigger] (before + own)[i],
                ) by {
                    if i >= before.len() {
                        assert((before + own)[i] == own[i - before.len()]);
                    }
                }
            }
            n = n + 1;
        }
        assert(cs.subrange(0, n as int) =~= cs);
        true
    }

    fn minimum_version(&self) -> (r: Option<Version>) {
        if !self.has_minimum_version() {
            return None;
        }
        proof {
            let cs = self.comparators@;
            assert forall|i: int| 0 <= i < candidates(cs).len() implies release_fits(
                #[trigger] candidates(cs)[i],
            ) by {
                assert(release_fits(self.candidates()[i]));
            }
        }
        Some(lowest_version(self))
    }
}

/// The lowest version that the requirement written as `requirement` lets in, as far as its
/// comparators tell: `0.0.0` where `requirement` is no requirement or has no comparator, and
/// `None` where a comparator asks for a number beyond what a version can hold.
pub fn minimum_version(requirement: &str) -> (r: Option<Version>)
    ensures
        match semver_requirement(trimmed(requirement@)) {
            Some(cs) => if candidates_fit(cs) {
                r matches Some(v) && is_minimum_of(v@, candidates(cs))
            } else {
                r is None
            },
            None => r matches Some(v) && is_plain(v@, (0, 0, 0)),
        },
{
    match parse_version_req(requirement) {
        Some(req) => req.minimum_version(),
        None => Some(Version::new(0, 0, 0)),
    }
}

} // verus!
