//! The lowest version that a requirement of PEP 440 lets in.
use crate::pep_types::{
    parse_pep_version_req, pep_requirement, plain_text, release_number, PepOperator,
    PepSpecifier, PepSpecifierView, PepVersion, PepVersionReq, PepVersionView,
};
use crate::text::trimmed;
use crate::version_req::{all_fit, is_lowest, release_fits, release_le, Release};
use vstd::prelude::*;

verus! {

/// Whether `v` is the stable version of the three numbers `r`, written in its normal form.
pub open spec fn is_plain_pep(v: PepVersionView, r: Release) -> bool {
    &&& release_fits(r)
    &&& v.release == seq![r.0 as u64, r.1 as u64, r.2 as u64]
    &&& v.stable
    &&& v.text == plain_text(r.0 as u64, r.1 as u64, r.2 as u64)
}

/// The first three numbers of the specifier's version, with a zero for each that was left out.
pub open spec fn pep_base_of(s: PepSpecifierView) -> Release {
    (
        release_number(s.release, 0) as int,
        release_number(s.release, 1) as int,
        release_number(s.release, 2) as int,
    )
}

/// The specifier's version with the last of its first three numbers that was given raised by
/// one, and zeros after it.
pub open spec fn pep_bumped(s: PepSpecifierView) -> Release {
    let base = pep_base_of(s);
    if s.release.len() >= 3 {
        (base.0, base.1, base.2 + 1)
    } else if s.release.len() >= 2 {
        (base.0, base.1 + 1, 0)
    } else {
        (base.0 + 1, 0, 0)
    }
}

/// The versions that one specifier puts forward as candidates for the lowest version.
pub open spec fn pep_candidates_of(s: PepSpecifierView) -> Seq<Release> {
    let base = pep_base_of(s);
    match s.operator {
        PepOperator::Equal
        | PepOperator::GreaterThanEqual
        | PepOperator::LessThan
        | PepOperator::NotEqual
        | PepOperator::NotEqualStar
        | PepOperator::ExactEqual => seq![base],
        PepOperator::GreaterThan => seq![pep_bumped(s)],
        PepOperator::LessThanEqual => if s.release.len() < 3 {
            seq![pep_bumped(s)]
        } else {
            seq![base]
        },
        PepOperator::TildeEqual => if s.release.len() >= 3 {
            seq![base, (base.0, base.1 + 1, 0)]
        } else {
            seq![base, (base.0 + 1, 0, 0)]
        },
        PepOperator::EqualStar => if s.release.len() >= 2 {
            seq![(base.0, base.1, 0), (base.0, base.1 + 1, 0)]
        } else {
            seq![(base.0, 0, 0), (base.0 + 1, 0, 0)]
        },
    }
}

/// The candidates of all specifiers, in the order of the specifiers.
pub open spec fn pep_candidates(ss: Seq<PepSpecifierView>) -> Seq<Release>
    decreases ss.len(),
{
    if ss.len() == 0 {
        Seq::empty()
    } else {
        pep_candidates(ss.drop_last()) + pep_candidates_of(ss.last())
    }
}

fn number_at(release: &Vec<u64>, i: usize) -> (n: u64)
    ensures
        n == release_number(release@, i as int),
{
    if i < release.len() {
        release[i]
    } else {
        0
    }
}

fn plain_pep(major: u64, minor: u64, patch: u64) -> (v: PepVersion)
    ensures
        is_plain_pep(v@, (major as int, minor as int, patch as int)),
{
    PepVersion::new(major, minor, patch)
}

fn specifier_fits(s: &PepSpecifier) -> (b: bool)
    ensures
        b == all_fit(pep_candidates_of(s@)),
{
    let major = number_at(&s.release, 0);
    let minor = number_at(&s.release, 1);
    let patch = number_at(&s.release, 2);
    let len = s.release.len();
    let ghost c = pep_candidates_of(s@);
    let bump_fits = if len >= 3 {
        patch < u64::MAX
    } else if len >= 2 {
        minor < u64::MAX
    } else {
        major < u64::MAX
    };
    let b = match s.operator {
        PepOperator::Equal
        | PepOperator::GreaterThanEqual
        | PepOperator::LessThan
        | PepOperator::NotEqual
        | PepOperator::NotEqualStar
        | PepOperator::ExactEqual => true,
        PepOperator::GreaterThan => bump_fits,
        PepOperator::LessThanEqual => len >= 3 || bump_fits,
        PepOperator::TildeEqual => if len >= 3 {
            minor < u64::MAX
        } else {
            major < u64::MAX
        },
        PepOperator::EqualStar => if len >= 2 {
            minor < u64::MAX
        } else {
            major < u64::MAX
        },
    };
    proof {
        assert(c.len() > 0);
        if b {
            assert forall|i: int| 0 <= i < c.len() implies release_fits(#[trigger] c[i]) by {
                if i > 0 {
                    assert(i == 1);
                }
            }
        } else {
            if c.len() == 1 {
                assert(!release_fits(c[0]));
            } else {
                assert(!release_fits(c[1]));
            }
        }
    }
    b
}

/// Puts the candidates of `s` at the end of `out`.
fn push_pep_candidates(out: &mut Vec<PepVersion>, s: &PepSpecifier)
    requires
        all_fit(pep_candidates_of(s@)),
    ensures
        final(out)@.len() == old(out)@.len() + pep_candidates_of(s@).len(),
        forall|i: int| 0 <= i < old(out)@.len() ==> final(out)@[i] == old(out)@[i],
        forall|i: int|
            0 <= i < pep_candidates_of(s@).len() ==> is_plain_pep(
                #[trigger] final(out)@[old(out)@.len() + i]@,
                pep_candidates_of(s@)[i],
            ),
{
    let major = number_at(&s.release, 0);
    let minor = number_at(&s.release, 1);
    let patch = number_at(&s.release, 2);
    let len = s.release.len();
    proof {
        let c = pep_candidates_of(s@);
        assert(c.len() > 0);
        assert(release_fits(c[0]));
        if c.len() > 1 {
            assert(release_fits(c[1]));
        }
    }
    match s.operator {
        PepOperator::Equal
        | PepOperator::GreaterThanEqual
        | PepOperator::LessThan
        | PepOperator::NotEqual
        | PepOperator::NotEqualStar
        | PepOperator::ExactEqual => {
            out.push(plain_pep(major, minor, patch));
        },
        PepOperator::GreaterThan => {
            if len >= 3 {
                out.push(plain_pep(major, minor, patch + 1));
            } else if len >= 2 {
                out.push(plain_pep(major, minor + 1, 0));
            } else {
                out.push(plain_pep(major + 1, 0, 0));
            }
        },
        PepOperator::LessThanEqual => {
            if len >= 3 {
                out.push(plain_pep(major, minor, patch));
            } else if len >= 2 {
                out.push(plain_pep(major, minor + 1, 0));
            } else {
                out.push(plain_pep(major + 1, 0, 0));
            }
        },
        PepOperator::TildeEqual => {
            out.push(plain_pep(major, minor, patch));
            if len >= 3 {
                out.push(plain_pep(major, minor + 1, 0));
            } else {
                out.push(plain_pep(major + 1, 0, 0));
            }
        },
        PepOperator::EqualStar => {
            if len >= 2 {
                out.push(plain_pep(major, minor, 0));
                out.push(plain_pep(major, minor + 1, 0));
            } else {
                out.push(plain_pep(major, 0, 0));
                out.push(plain_pep(major + 1, 0, 0));
            }
        },
    }
}

/// The candidates of one more specifier are those of the specifiers before it, then its own.
proof fn lemma_pep_candidates_step(ss: Seq<PepSpecifierView>, n: int)
    requires
        0 <= n < ss.len(),
    ensures
        pep_candidates(ss.subrange(0, n + 1)) == pep_candidates(ss.subrange(0, n))
            + pep_candidates_of(ss[n]),
{
    let s = ss.subrange(0, n + 1);
    assert(s.drop_last() =~= ss.subrange(0, n));
    assert(s.last() == ss[n]);
}

/// The candidates of the first `n` specifiers open the candidates of all of them.
proof fn lemma_pep_candidates_prefix(ss: Seq<PepSpecifierView>, n: int)
    requires
        0 <= n <= ss.len(),
    ensures
        pep_candidates(ss.subrange(0, n)).len() <= pep_candidates(ss).len(),
        forall|i: int|
            0 <= i < pep_candidates(ss.subrange(0, n)).len() ==> pep_candidates(
                ss.subrange(0, n),
            )[i] == pep_candidates(ss)[i],
    decreases ss.len() - n,
{
    if n == ss.len() {
        assert(ss.subrange(0, n) =~= ss);
    } else {
        lemma_pep_candidates_step(ss, n);
        lemma_pep_candidates_prefix(ss, n + 1);
    }
}

/// The versions that the specifiers of `req` put forward, in the order of the specifiers.
pub fn possible_versions_for_req(req: &PepVersionReq) -> (r: Vec<PepVersion>)
    requires
        all_fit(pep_candidates(req@.specifiers)),
    ensures
        r@.len() == pep_candidates(req@.specifiers).len(),
        forall|i: int|
            0 <= i < r@.len() ==> is_plain_pep(
                #[trigger] r@[i]@,
                pep_candidates(req@.specifiers)[i],
            ),
{
    let ghost ss = req@.specifiers;
    let mut out: Vec<PepVersion> = Vec::new();
    let mut n: usize = 0;
    assert(ss.subrange(0, 0) =~= Seq::<PepSpecifierView>::empty());
    while n < req.specifiers.len()
        invariant
            n <= req.specifiers.len(),
            ss == req@.specifiers,
            ss.len() == req.specifiers.len(),
            all_fit(pep_candidates(ss)),
            out@.len() == pep_candidates(ss.subrange(0, n as int)).len(),
            forall|i: int|
                0 <= i < out@.len() ==> is_plain_pep(
                    #[trigger] out@[i]@,
                    pep_candidates(ss.subrange(0, n as int))[i],
                ),
        decreases req.specifiers.len() - n,
    {
        let ghost before = pep_candidates(ss.subrange(0, n as int));
        let ghost own = pep_candidates_of(ss[n as int]);
        let ghost upto = pep_candidates(ss.subrange(0, n as int + 1));
        assert(ss[n as int] == req.specifiers@[n as int]@);
        proof {
            lemma_pep_candidates_step(ss, n as int);
            lemma_pep_candidates_prefix(ss, n as int + 1);
            assert(upto == before + own);
            assert forall|i: int| 0 <= i < own.len() implies release_fits(#[trigger] own[i]) by {
                assert(upto[before.len() + i] == own[i]);
                assert(upto[before.len() + i] == pep_candidates(ss)[before.len() + i]);
            }
        }
        let ghost old_out = out@;
        push_pep_candidates(&mut out, &req.specifiers[n]);
        proof {
            assert forall|i: int| 0 <= i < out@.len() implies is_plain_pep(
                #[trigger] out@[i]@,
                upto[i],
            ) by {
                if i < old_out.len() {
                    assert(out@[i] == old_out[i]);
                } else {
                    let k = i - old_out.len();
                    assert(is_plain_pep(out@[old_out.len() + k]@, own[k]));
                }
            }
        }
        n = n + 1;
    }
    assert(ss.subrange(0, n as int) =~= ss);
    out
}

/// Whether `v` is the lowest of the candidates `c`, written as a stable version of three
/// numbers, or `0.0.0` where there is no candidate.
pub open spec fn is_minimum_of(v: PepVersionView, c: Seq<Release>) -> bool {
    if c.len() == 0 {
        is_plain_pep(v, (0, 0, 0))
    } else {
        exists|m: Release| is_lowest(m, c) && #[trigger] is_plain_pep(v, m)
    }
}

/// Deriving one version from a requirement of PEP 440.
pub trait PepVersionReqExt {
    /// The candidates that the requirement puts forward.
    spec fn candidates(&self) -> Seq<Release>;

    /// Whether the requirement has a lowest version: every candidate fits a version.
    fn has_minimum_version(&self) -> (b: bool)
        ensures
            b == all_fit(self.candidates()),
    ;

    /// The lowest of the candidates, or `0.0.0` where there is none; `None` where a candidate
    /// asks for a number beyond what a version can hold.
    fn minimum_version(&self) -> (r: Option<PepVersion>)
        ensures
            match r {
                Some(v) => all_fit(self.candidates()) && is_minimum_of(v@, self.candidates()),
                None => !all_fit(self.candidates()),
            },
    ;
}

/// The lowest of the candidates of `req`, or `0.0.0` where there is none.
fn lowest_version(req: &PepVersionReq) -> (v: PepVersion)
    requires
        all_fit(pep_candidates(req@.specifiers)),
    ensures
        is_minimum_of(v@, pep_candidates(req@.specifiers)),
{
    let all = possible_versions_for_req(req);
    let ghost s = pep_candidates(req@.specifiers);
    if all.len() == 0 {
        return PepVersion::new(0, 0, 0);
    }
    let mut best: usize = 0;
    let mut i: usize = 1;
    while i < all.len()
        invariant
            1 <= i <= all.len(),
            best < i,
            all@.len() == s.len(),
            forall|k: int| 0 <= k < all@.len() ==> is_plain_pep(#[trigger] all@[k]@, s[k]),
            forall|k: int| 0 <= k < i ==> release_le(s[best as int], #[trigger] s[k]),
        decreases all.len() - i,
    {
        let a = &all[i];
        let b = &all[best];
        assert(is_plain_pep(all@[i as int]@, s[i as int]));
        assert(is_plain_pep(all@[best as int]@, s[best as int]));
        if a.major() < b.major() || (a.major() == b.major() && (a.minor() < b.minor() || (
        a.minor() == b.minor() && a.patch() < b.patch()))) {
            best = i;
        }
        i = i + 1;
    }
    let w = &all[best];
    assert(is_plain_pep(all@[best as int]@, s[best as int]));
    let v = w.duplicate();
    assert(is_lowest(s[best as int], pep_candidates(req@.specifiers)) && is_plain_pep(v@, s[best as int]));
    v
}


impl PepVersionReqExt for PepVersionReq {
    open spec fn candidates(&self) -> Seq<Release> {
        pep_candidates(self@.specifiers)
    }

    fn has_minimum_version(&self) -> (b: bool) {
        let ghost ss = self@.specifiers;
        let mut n: usize = 0;
        assert(ss.subrange(0, 0) =~= Seq::<PepSpecifierView>::empty());
        while n < self.specifiers.len()
            invariant
                n <= self.specifiers.len(),
                ss == self@.specifiers,
                ss.len() == self.specifiers.len(),
                all_fit(pep_candidates(ss.subrange(0, n as int))),
            decreases self.specifiers.len() - n,
        {
            let ghost before = pep_candidates(ss.subrange(0, n as int));
            let ghost own = pep_candidates_of(ss[n as int]);
            let ghost upto = pep_candidates(ss.subrange(0, n as int + 1));
            assert(ss[n as int] == self.specifiers@[n as int]@);
            proof {
                lemma_pep_candidates_step(ss, n as int);
                lemma_pep_candidates_prefix(ss, n as int + 1);
                assert(upto == before + own);
            }
            if !specifier_fits(&self.specifiers[n]) {
                proof {
                    let k = choose|k: int| 0 <= k < own.len() && !release_fits(#[trigger] own[k]);
                    let at = before.len() + k;
                    assert(upto[at] == own[k]);
                    assert(upto[at] == pep_candidates(ss)[at]);
                    assert(0 <= at < self.candidates().len());
                    assert(!release_fits(self.candidates()[at]));
                }
                return false;
            }
            proof {
                assert forall|i: int| 0 <= i < upto.len() implies release_fits(
                    #[trigger] upto[i],
                ) by {
                    if i >= before.len() {
                        assert(upto[i] == own[i - before.len()]);
                    } else {
                        assert(upto[i] == before[i]);
                    }
                }
            }
            n = n + 1;
        }
        assert(ss.subrange(0, n as int) =~= ss);
        true
    }

    fn minimum_version(&self) -> (r: Option<PepVersion>) {
        if self.has_minimum_version() {
            Some(lowest_version(self))
        } else {
            None
        }
    }
}

/// The lowest version that the requirement written as `requirement` lets in, as far as its
/// specifiers tell: `0.0.0` where `requirement` is no requirement or has no specifier, and
/// `None` where a specifier asks for a number beyond what a version can hold.
pub fn minimum_version(requirement: &str) -> (r: Option<PepVersion>)
    ensures
        match pep_requirement(trimmed(requirement@)) {
            Some(q) => if all_fit(pep_candidates(q.specifiers)) {
                r matches Some(v) && is_minimum_of(v@, pep_candidates(q.specifiers))
            } else {
                r is None
            },
            None => r matches Some(v) && is_plain_pep(v@, (0, 0, 0)),
        },
{
    match parse_pep_version_req(requirement) {
        Some(req) => {
            assert(req.candidates() == pep_candidates(req@.specifiers));
            req.minimum_version()
        },
        None => Some(PepVersion::new(0, 0, 0)),
    }
}

} // verus!
