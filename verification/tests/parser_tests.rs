use deputy::parser::cargo::is_dependency_table;
use deputy::parser::gomod::is_require_directive;
use deputy::parser::npm::DependencyKind;
use deputy::parser::pyproject::{
    check_dependencies, split_pep508_ranges, ByteRange, DependencyKind as PyDependencyKind,
};
use deputy::parser::wally::split_wally_ranges;

#[test]
fn sections_of_a_package_json() {
    assert_eq!(DependencyKind::from_str("dependencies"), Ok(DependencyKind::Dependency));
    assert_eq!(DependencyKind::from_str("devDependencies"), Ok(DependencyKind::DevDependency));
    assert_eq!(DependencyKind::from_str("peerDependencies"), Ok(DependencyKind::PeerDependency));
    assert_eq!(
        DependencyKind::from_str("optionalDependencies"),
        Ok(DependencyKind::OptionalDependency)
    );
    assert_eq!(DependencyKind::from_str("devdependencies"), Err(()));
    assert_eq!(DependencyKind::from_str("scripts"), Err(()));
    assert_eq!(DependencyKind::from_str(""), Err(()));
}

#[test]
fn require_directives_of_a_go_mod() {
    assert!(is_require_directive("require_directive_single"));
    assert!(is_require_directive("require_directive_multi"));
    assert!(!is_require_directive("require_spec"));
    assert!(!is_require_directive(""));
}

fn parts(names: &[&str]) -> Vec<String> {
    names.iter().map(|n| n.to_string()).collect()
}

#[test]
fn tables_of_a_pyproject_that_list_dependencies() {
    assert_eq!(check_dependencies(&parts(&["project"]), "dependencies"), Some(PyDependencyKind::Dependency));
    assert_eq!(check_dependencies(&parts(&["project"]), "name"), None);
    assert_eq!(
        check_dependencies(&parts(&["project", "optional-dependencies"]), "dev"),
        Some(PyDependencyKind::OptionalDependency)
    );
    assert_eq!(
        check_dependencies(&parts(&["project", "optional_dependencies"]), "dev"),
        Some(PyDependencyKind::OptionalDependency)
    );
    assert_eq!(check_dependencies(&parts(&["project", "urls"]), "dependencies"), None);
    assert_eq!(check_dependencies(&parts(&["project", "optional-dependencies", "x"]), "dev"), None);
    assert_eq!(
        check_dependencies(&parts(&["dependency-groups"]), "test"),
        Some(PyDependencyKind::DependencyGroup)
    );
    assert_eq!(
        check_dependencies(&parts(&["dependency_groups"]), "test"),
        Some(PyDependencyKind::DependencyGroup)
    );
    assert_eq!(
        check_dependencies(&parts(&["build-system"]), "requires"),
        Some(PyDependencyKind::BuildRequirement)
    );
    assert_eq!(
        check_dependencies(&parts(&["build_system"]), "requires"),
        Some(PyDependencyKind::BuildRequirement)
    );
    assert_eq!(check_dependencies(&parts(&["build-system"]), "build-backend"), None);
    assert_eq!(check_dependencies(&parts(&["tool", "poetry"]), "dependencies"), None);
    assert_eq!(check_dependencies(&parts(&[]), "dependencies"), None);
}

fn range(start: usize, end: usize) -> Option<ByteRange> {
    Some(ByteRange { start, end })
}

#[test]
fn parts_of_a_dependency() {
    let r = split_pep508_ranges("requests>=2.0");
    assert_eq!((r.name, r.version, r.extras), (range(0, 8), range(8, 13), None));
    let r = split_pep508_ranges("requests");
    assert_eq!((r.name, r.version, r.extras), (range(0, 8), None, None));
    let r = split_pep508_ranges("requests [security, socks] >= 2.0 , <3 ; python_version < '3'");
    assert_eq!((r.name, r.version, r.extras), (range(0, 8), range(27, 38), range(9, 26)));
    let r = split_pep508_ranges("  ");
    assert_eq!((r.name, r.version, r.extras), (None, None, None));
    let r = split_pep508_ranges("");
    assert_eq!((r.name, r.version, r.extras), (None, None, None));
    let r = split_pep508_ranges("; python_version < '3'");
    assert_eq!((r.name, r.version, r.extras), (None, None, None));
}

#[test]
fn parts_of_a_dependency_that_is_being_typed() {
    // Extras that are not closed yet hold the operators within them.
    let r = split_pep508_ranges("pkg[extra>=1");
    assert_eq!((r.name, r.version, r.extras), (range(0, 3), None, None));
    // A version before the extras: the extras are found, the name ends at the version.
    let r = split_pep508_ranges("pkg==1.0[x]");
    assert_eq!((r.name, r.version, r.extras), (range(0, 3), range(3, 11), range(8, 11)));
    let r = split_pep508_ranges(">=1.0");
    assert_eq!((r.name, r.version, r.extras), (None, range(0, 5), None));
    let r = split_pep508_ranges(" [x]");
    assert_eq!((r.name, r.version, r.extras), (None, None, range(1, 4)));
    let r = split_pep508_ranges("a]b[c]d[e]~=1");
    assert_eq!((r.name, r.version, r.extras), (range(0, 3), range(10, 13), range(3, 6)));
    // Places are counted in bytes.
    let r = split_pep508_ranges("päckage != 1.0\t");
    assert_eq!((r.name, r.version, r.extras), (range(0, 8), range(9, 15), None));
}

fn part(start: usize, end: usize) -> Option<ByteRange> {
    Some(ByteRange { start, end })
}

#[test]
fn parts_of_a_wally_dependency() {
    let r = split_wally_ranges("scope/name@1.2.3");
    assert_eq!(r.owner, part(0, 5));
    assert_eq!(r.repository, part(6, 10));
    assert_eq!(r.version, part(11, 16));
    // What is not yet typed is missing; what is just begun is there and empty.
    let r = split_wally_ranges("sco");
    assert_eq!((r.owner, r.repository, r.version), (part(0, 3), None, None));
    let r = split_wally_ranges("scope/");
    assert_eq!((r.owner, r.repository, r.version), (part(0, 5), part(6, 6), None));
    let r = split_wally_ranges("scope/name@");
    assert_eq!((r.owner, r.repository, r.version), (part(0, 5), part(6, 10), part(11, 11)));
    let r = split_wally_ranges("");
    assert_eq!((r.owner, r.repository, r.version), (part(0, 0), None, None));
    // An `@` before the `/` belongs to the scope.
    let r = split_wally_ranges("a@b/c");
    assert_eq!((r.owner, r.repository, r.version), (part(0, 3), part(4, 5), None));
}

#[test]
fn tables_that_list_dependencies() {
    let parts = |names: &[&str]| names.iter().map(|n| n.to_string()).collect::<Vec<String>>();
    assert!(is_dependency_table(&parts(&["dependencies"])));
    assert!(is_dependency_table(&parts(&["dev-dependencies"])));
    assert!(is_dependency_table(&parts(&["build-dependencies"])));
    assert!(is_dependency_table(&parts(&["workspace", "dependencies"])));
    assert!(is_dependency_table(&parts(&["target", "cfg(unix)", "dependencies"])));
    assert!(!is_dependency_table(&parts(&["dependencies", "serde"])));
    assert!(!is_dependency_table(&parts(&["package"])));
    assert!(!is_dependency_table(&parts(&[])));
}
