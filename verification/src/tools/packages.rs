//! Lists of well-known packages, from which names are completed.
use crate::text::{chars_of, starts_with, string_of, texts, trim, trimmed};
use vstd::prelude::*;

verus! {

/// A well-known Go package, kept in a list as `path:Display Name:"description"`.
#[derive(Debug, Clone)]
pub struct GoPackage {
    pub path: String,
    pub name: String,
    pub description: String,
}

/// What a [`GoPackage`] stands for.
pub struct GoPackageView {
    pub path: Seq<char>,
    pub name: Seq<char>,
    pub description: Seq<char>,
}

impl View for GoPackage {
    type V = GoPackageView;

    open spec fn view(&self) -> GoPackageView {
        GoPackageView { path: self.path@, name: self.name@, description: self.description@ }
    }
}

/// Why a line is no Go package.
pub enum GoPackageError {
    /// The line holds no `:`.
    MissingPath,
    /// The line holds no second `:`.
    MissingName,
    /// What follows the second `:` does not stand between `"` and `"`.
    UnquotedDescription,
}

impl GoPackageError {
    /// The error in words.
    pub open spec fn message(self) -> Seq<char> {
        match self {
            GoPackageError::MissingPath => "missing path"@,
            GoPackageError::MissingName => "missing name"@,
            GoPackageError::UnquotedDescription => "unquoted description"@,
        }
    }
}

/// The place of the first `:` of `s` at or after `from`, or the length of `s`.
pub open spec fn first_colon(s: Seq<char>, from: int) -> int
    decreases s.len() - from,
{
    if from >= s.len() {
        s.len() as int
    } else if s[from] == ':' {
        from
    } else {
        first_colon(s, from + 1)
    }
}

/// The Go package that the line `s` holds, or why it holds none.
pub open spec fn go_package_of(s: Seq<char>) -> Result<GoPackageView, GoPackageError> {
    let a = first_colon(s, 0);
    let b = first_colon(s, a + 1);
    if a >= s.len() {
        Err(GoPackageError::MissingPath)
    } else if b >= s.len() {
        Err(GoPackageError::MissingName)
    } else if s.len() - b < 3 || s[b + 1] != '"' || s.last() != '"' {
        Err(GoPackageError::UnquotedDescription)
    } else {
        Ok(
            GoPackageView {
                path: s.subrange(0, a),
                name: s.subrange(a + 1, b),
                description: s.subrange(b + 2, s.len() - 1),
            },
        )
    }
}

fn find_colon(v: &Vec<char>, from: usize) -> (r: usize)
    requires
        from <= v.len(),
    ensures
        r == first_colon(v@, from as int),
        from <= r <= v.len(),
{
    let mut i: usize = from;
    while i < v.len() && v[i] != ':'
        invariant
            from <= i <= v.len(),
            first_colon(v@, from as int) == first_colon(v@, i as int),
        decreases v.len() - i,
    {
        i = i + 1;
    }
    i
}

impl GoPackage {
    /// Reads a line of the list; where the line is no package, says in words why.
    pub fn from_str(s: &str) -> (r: Result<GoPackage, String>)
        ensures
            match r {
                Ok(p) => go_package_of(s@) == Ok::<GoPackageView, GoPackageError>(p@),
                Err(e) => go_package_of(s@) matches Err(why) && e@ == why.message(),
            },
    {
        let v = chars_of(s);
        let a = find_colon(&v, 0);
        if a >= v.len() {
            return Err("missing path".to_owned());
        }
        let b = find_colon(&v, a + 1);
        if b >= v.len() {
            return Err("missing name".to_owned());
        }
        if v.len() - b < 3 || v[b + 1] != '"' || v[v.len() - 1] != '"' {
            return Err("unquoted description".to_owned());
        }
        Ok(
            GoPackage {
                path: string_of(&v, 0, a),
                name: string_of(&v, a + 1, b),
                description: string_of(&v, b + 2, v.len() - 1),
            },
        )
    }

    /// The path, by which the package is found.
    pub fn as_ref(&self) -> (r: &str)
        ensures
            r@ == self.path@,
    {
        self.path.as_str()
    }
}

/// A well-known Python package, kept in a list of names, the most used first.
#[derive(Debug, Clone)]
pub struct PyPiPackage {
    pub name: String,
    pub ranking: u64,
}

impl PyPiPackage {
    /// Reads a line of the list: the name is the line without the white space around it.
    pub fn from_str(s: &str) -> (r: PyPiPackage)
        ensures
            r.name@ == trimmed(s@),
            r.ranking == 0,
    {
        PyPiPackage { name: trim(s), ranking: 0 }
    }

    /// The name, by which the package is found.
    pub fn as_ref(&self) -> (r: &str)
        ensures
            r@ == self.name@,
    {
        self.name.as_str()
    }
}

/// The places of the first `limit` of the first `n` keys that start with `prefix`.
pub open spec fn prefixed(keys: Seq<Seq<char>>, prefix: Seq<char>, limit: nat, n: int) -> Seq<int>
    decreases n,
{
    if n <= 0 {
        Seq::empty()
    } else {
        let before = prefixed(keys, prefix, limit, n - 1);
        if before.len() < limit && prefix.is_prefix_of(keys[n - 1]) {
            before.push(n - 1)
        } else {
            before
        }
    }
}

/// The paths of packages.
pub open spec fn go_keys(packages: Seq<GoPackage>) -> Seq<Seq<char>> {
    Seq::new(packages.len(), |i: int| packages[i].path@)
}

/// The names of packages.
pub open spec fn pypi_keys(packages: Seq<PyPiPackage>) -> Seq<Seq<char>> {
    Seq::new(packages.len(), |i: int| packages[i].name@)
}

/// The first `limit` packages of `packages` whose path starts with `prefix`, in the order of
/// the list.
pub fn top_go_packages_prefixed<'a>(packages: &'a Vec<GoPackage>, prefix: &str, limit: usize) -> (r: Vec<&'a GoPackage>)
    ensures
        r@.len() == prefixed(go_keys(packages@), prefix@, limit as nat, packages@.len() as int).len(),
        forall|k: int|
            0 <= k < r@.len() ==> *(#[trigger] r@[k]) == packages@[prefixed(
                go_keys(packages@),
                prefix@,
                limit as nat,
                packages@.len() as int,
            )[k]],
{
    let ghost keys = go_keys(packages@);
    let wanted = chars_of(prefix);
    let mut r: Vec<&GoPackage> = Vec::new();
    let ghost mut places: Seq<int> = Seq::empty();
    let mut i: usize = 0;
    while i < packages.len()
        invariant
            i <= packages.len(),
            keys == go_keys(packages@),
            wanted@ == prefix@,
            places == prefixed(keys, prefix@, limit as nat, i as int),
            r@.len() == places.len(),
            forall|k: int|
                0 <= k < r@.len() ==> 0 <= #[trigger] places[k] < i && *r@[k] == packages@[places[k]],
        decreases packages.len() - i,
    {
        let package = &packages[i];
        assert(keys[i as int] == package.path@);
        if r.len() < limit && starts_with(&chars_of(package.path.as_str()), &wanted) {
            r.push(package);
            proof {
                places = places.push(i as int);
            }
        }
        i = i + 1;
    }
    r
}

/// The first `limit` packages of `packages` whose name starts with `prefix`, in the order of
/// the list.
pub fn top_pypi_packages_prefixed<'a>(packages: &'a Vec<PyPiPackage>, prefix: &str, limit: usize) -> (r: Vec<&'a PyPiPackage>)
    ensures
        r@.len() == prefixed(pypi_keys(packages@), prefix@, limit as nat, packages@.len() as int).len(),
        forall|k: int|
            0 <= k < r@.len() ==> *(#[trigger] r@[k]) == packages@[prefixed(
                pypi_keys(packages@),
                prefix@,
                limit as nat,
                packages@.len() as int,
            )[k]],
{
    let ghost keys = pypi_keys(packages@);
    let wanted = chars_of(prefix);
    let mut r: Vec<&PyPiPackage> = Vec::new();
    let ghost mut places: Seq<int> = Seq::empty();
    let mut i: usize = 0;
    while i < packages.len()
        invariant
            i <= packages.len(),
            keys == pypi_keys(packages@),
            wanted@ == prefix@,
            places == prefixed(keys, prefix@, limit as nat, i as int),
            r@.len() == places.len(),
            forall|k: int|
                0 <= k < r@.len() ==> 0 <= #[trigger] places[k] < i && *r@[k] == packages@[places[k]],
        decreases packages.len() - i,
    {
        let package = &packages[i];
        assert(keys[i as int] == package.name@);
        if r.len() < limit && starts_with(&chars_of(package.name.as_str()), &wanted) {
            r.push(package);
            proof {
                places = places.push(i as int);
            }
        }
        i = i + 1;
    }
    r
}

/// The places of the first `limit` of `items` that start with `prefix`, in rising order.
pub fn prefixed_places(items: &Vec<String>, prefix: &str, limit: usize) -> (r: Vec<usize>)
    ensures
        Seq::new(r@.len(), |k: int| r@[k] as int) == prefixed(
            texts(items@),
            prefix@,
            limit as nat,
            items@.len() as int,
        ),
{
    let ghost keys = texts(items@);
    let wanted = chars_of(prefix);
    let mut r: Vec<usize> = Vec::new();
    let mut i: usize = 0;
    while i < items.len()
        invariant
            i <= items.len(),
            keys == texts(items@),
            wanted@ == prefix@,
            Seq::new(r@.len(), |k: int| r@[k] as int) == prefixed(
                keys,
                prefix@,
                limit as nat,
                i as int,
            ),
        decreases items.len() - i,
    {
        assert(keys[i as int] == items@[i as int]@);
        let ghost before = Seq::new(r@.len(), |k: int| r@[k] as int);
        if r.len() < limit && starts_with(&chars_of(items[i].as_str()), &wanted) {
            r.push(i);
            assert(Seq::new(r@.len(), |k: int| r@[k] as int) =~= before.push(i as int));
        }
        i = i + 1;
    }
    r
}

} // verus!
