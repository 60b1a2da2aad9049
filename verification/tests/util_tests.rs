use deputy::util::{
    has_pep_version_specifier, has_semver_version_specifier, is_bare_version,
    trim_pep_version_specifiers, trim_semver_version_specifiers,
};


#[test]
fn is_bare_version_digits() {
    assert!(is_bare_version("1.0.0"));
    assert!(is_bare_version("0.1"));
    assert!(is_bare_version("  3.2.1  "));
}

#[test]
fn is_bare_version_with_specifiers() {
    assert!(!is_bare_version("^1.0"));
    assert!(!is_bare_version(">=1.0"));
    assert!(!is_bare_version("~1.0"));
    assert!(!is_bare_version(""));
    assert!(!is_bare_version("  "));
}

#[test]
fn has_semver_specifier_basic() {
    assert!(has_semver_version_specifier("^1.0"));
    assert!(has_semver_version_specifier(">=1.0"));
    assert!(has_semver_version_specifier(">1.0"));
    assert!(has_semver_version_specifier("<1.0"));
    assert!(has_semver_version_specifier("=1.0"));
    assert!(has_semver_version_specifier("~1.0"));
    assert!(!has_semver_version_specifier("1.0"));
    assert!(!has_semver_version_specifier(""));
}

#[test]
fn trim_semver_specifiers() {
    assert_eq!(trim_semver_version_specifiers("^1.0.0"), "1.0.0");
    assert_eq!(trim_semver_version_specifiers(">=1.0.0"), "1.0.0");
    assert_eq!(trim_semver_version_specifiers("~1.0.0"), "1.0.0");
    assert_eq!(trim_semver_version_specifiers("1.0.0"), "1.0.0");
    assert_eq!(trim_semver_version_specifiers("  ^1.0  "), "1.0");
}

#[test]
fn has_pep_specifier_basic() {
    assert!(has_pep_version_specifier(">=1.0"));
    assert!(has_pep_version_specifier(">1.0"));
    assert!(has_pep_version_specifier("<1.0"));
    assert!(has_pep_version_specifier("==1.0"));
    assert!(has_pep_version_specifier("~=1.0"));
    assert!(has_pep_version_specifier("!=1.0"));
    assert!(!has_pep_version_specifier("1.0"));
    assert!(!has_pep_version_specifier(""));
}

#[test]
fn trim_pep_specifiers() {
    assert_eq!(trim_pep_version_specifiers(">=1.0.0"), "1.0.0");
    assert_eq!(trim_pep_version_specifiers("==1.0.0"), "1.0.0");
    assert_eq!(trim_pep_version_specifiers("~=1.0.0"), "1.0.0");
    assert_eq!(trim_pep_version_specifiers("!=1.0.0"), "1.0.0");
    assert_eq!(trim_pep_version_specifiers("===1.0.0"), "1.0.0");
    assert_eq!(trim_pep_version_specifiers("1.0.0"), "1.0.0");
    assert_eq!(trim_pep_version_specifiers("  >= 1.0  "), "1.0");
}

#[test]
fn operators_and_white_space_are_taken_off_together() {
    assert_eq!(trim_semver_version_specifiers(">= 1.0"), "1.0");
    assert_eq!(trim_semver_version_specifiers(" ^ > 1.0 "), "1.0");
    assert_eq!(trim_semver_version_specifiers("1 .0 ^"), "1 .0 ^");
    assert_eq!(trim_semver_version_specifiers(" ~ "), "");
    assert_eq!(trim_semver_version_specifiers("!1"), "!1");
    assert_eq!(trim_pep_version_specifiers("> =1.0"), "1.0");
    assert_eq!(trim_pep_version_specifiers("!= 1.0 "), "1.0");
    assert_eq!(trim_pep_version_specifiers("^1"), "^1");
    assert_eq!(trim_pep_version_specifiers(""), "");
}
