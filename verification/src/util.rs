//! Recognising and removing the operators that precede a version in a requirement.
use crate::text::{
    char_in, chars_of, string_of, strip_start, strip_start_and_space,
    strip_start_and_space_bound, strip_start_bound, trim_bounds, trim_end, trim_end_bound,
    trimmed,
};
use vstd::prelude::*;

verus! {

/// The characters of which the operators of the first scheme's requirements are made.
pub open spec fn semver_operator_chars() -> Seq<char> {
    seq!['^', '>', '<', '=', '~']
}

/// The characters of which the operators of PEP 440 specifiers are made.
pub open spec fn pep_operator_chars() -> Seq<char> {
    seq!['>', '<', '=', '~', '!']
}

/// Whether `s`, without the white space around it, starts with a character of `set`.
pub open spec fn starts_with_any(s: Seq<char>, set: Seq<char>) -> bool {
    trimmed(s).len() > 0 && set.contains(trimmed(s)[0])
}

/// Whether `s`, without the white space around it, starts with an ASCII digit.
pub open spec fn starts_with_digit(s: Seq<char>) -> bool {
    trimmed(s).len() > 0 && '0' <= trimmed(s)[0] <= '9'
}

/// `s` after each step of: drop every leading `^`, then every leading `>`, then `<`, `=`, `~`.
pub open spec fn strip_operators_in_turn(s: Seq<char>) -> Seq<char> {
    strip_start(
        strip_start(
            strip_start(strip_start(strip_start(s, seq!['^']), seq!['>']), seq!['<']),
            seq!['='],
        ),
        seq!['~'],
    )
}

pub(crate) fn semver_operator_set() -> (v: Vec<char>)
    ensures
        v@ == semver_operator_chars(),
{
    let v = vec!['^', '>', '<', '=', '~'];
    assert(v@ =~= semver_operator_chars());
    v
}

pub(crate) fn pep_operator_set() -> (v: Vec<char>)
    ensures
        v@ == pep_operator_chars(),
{
    let v = vec!['>', '<', '=', '~', '!'];
    assert(v@ =~= pep_operator_chars());
    v
}

fn single(c: char) -> (v: Vec<char>)
    ensures
        v@ == seq![c],
{
    let v = vec![c];
    assert(v@ =~= seq![c]);
    v
}

/// Whether `s` starts with a digit once the white space around it is left out.
pub fn is_bare_version(s: &str) -> (b: bool)
    ensures
        b == starts_with_digit(s@),
{
    let v = chars_of(s);
    let (a, e) = trim_bounds(&v, 0, v.len());
    proof {
        assert(v@.subrange(0, v.len() as int) =~= v@);
    }
    a < e && '0' <= v[a] && v[a] <= '9'
}

fn first_in_set(s: &str, set: &Vec<char>) -> (b: bool)
    ensures
        b == starts_with_any(s@, set@),
{
    let v = chars_of(s);
    let (a, e) = trim_bounds(&v, 0, v.len());
    proof {
        assert(v@.subrange(0, v.len() as int) =~= v@);
    }
    a < e && char_in(set, v[a])
}

/// Whether `s` starts with one of `^ > < = ~` once the white space around it is left out.
pub fn has_semver_version_specifier(s: &str) -> (b: bool)
    ensures
        b == starts_with_any(s@, semver_operator_chars()),
{
    let set = semver_operator_set();
    first_in_set(s, &set)
}

/// What is left of `s` once white space and the characters of `set` are taken from its start,
/// and white space from its end.
pub open spec fn bare(s: Seq<char>, set: Seq<char>) -> Seq<char> {
    strip_start_and_space(trim_end(s), set)
}

fn strip(s: &str, set: &Vec<char>) -> (r: String)
    ensures
        r@ == bare(s@, set@),
{
    let v = chars_of(s);
    proof {
        assert(v@.subrange(0, v.len() as int) =~= v@);
    }
    let e = trim_end_bound(&v, 0, v.len());
    let b = strip_start_and_space_bound(&v, 0, e, set);
    string_of(&v, b, e)
}

/// `s` without the white space and the `^ > < = ~` that it starts with, and without the white
/// space at its end.
pub fn trim_semver_version_specifiers(s: &str) -> (r: String)
    ensures
        r@ == bare(s@, semver_operator_chars()),
{
    let set = semver_operator_set();
    strip(s, &set)
}

/// Whether `s` starts with one of `> < = ~ !` once the white space around it is left out.
pub fn has_pep_version_specifier(s: &str) -> (b: bool)
    ensures
        b == starts_with_any(s@, pep_operator_chars()),
{
    let set = pep_operator_set();
    first_in_set(s, &set)
}

/// `s` without the white space and the `> < = ~ !` that it starts with, and without the white
/// space at its end.
pub fn trim_pep_version_specifiers(s: &str) -> (r: String)
    ensures
        r@ == bare(s@, pep_operator_chars()),
{
    let set = pep_operator_set();
    strip(s, &set)
}

/// `s` without its leading `^`s, then without the `>`s it then starts with, and so on through
/// `<`, `=` and `~`: unlike [`trim_semver_version_specifiers`], each character has its turn
/// once, and white space is kept.
pub fn trim_version_specifiers(s: String) -> (r: String)
    ensures
        r@ == strip_operators_in_turn(s@),
{
    let v = chars_of(s.as_str());
    let e = v.len();
    proof {
        assert(v@.subrange(0, v.len() as int) =~= v@);
    }
    let a = strip_start_bound(&v, 0, e, &single('^'));
    let b = strip_start_bound(&v, a, e, &single('>'));
    let c = strip_start_bound(&v, b, e, &single('<'));
    let d = strip_start_bound(&v, c, e, &single('='));
    let f = strip_start_bound(&v, d, e, &single('~'));
    string_of(&v, f, e)
}

} // verus!
