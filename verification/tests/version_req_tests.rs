use deputy::version::Version;
use deputy::version_req::{parse_version_req, possible_versions_for_req, VersionReqExt};


fn min(req: &str) -> String {
    let req = parse_version_req(req).unwrap();
    assert!(req.has_minimum_version());
    req.minimum_version().unwrap().to_string()
}

// Exact

#[test]
fn exact_full() {
    assert_eq!(min("=1.2.3"), "1.2.3");
}

#[test]
fn exact_partial() {
    assert_eq!(min("=1.2"), "1.2.0");
}

// Greater than or equal

#[test]
fn version_req_gte_full() {
    assert_eq!(min(">=1.2.3"), "1.2.3");
}

#[test]
fn gte_partial() {
    assert_eq!(min(">=1.2"), "1.2.0");
}

// Greater than

#[test]
fn version_req_gt_full() {
    assert_eq!(min(">1.2.3"), "1.2.4");
}

#[test]
fn gt_major_minor() {
    assert_eq!(min(">1.2"), "1.3.0");
}

#[test]
fn gt_major_only() {
    assert_eq!(min(">1"), "2.0.0");
}

// Less than

#[test]
fn version_req_lt_full() {
    assert_eq!(min("<1.2.3"), "1.2.3");
}

#[test]
fn lt_major_minor() {
    assert_eq!(min("<1.2"), "1.2.0");
}

#[test]
fn lt_major_only() {
    assert_eq!(min("<2"), "2.0.0");
}

// Less than or equal

#[test]
fn version_req_lte_full() {
    assert_eq!(min("<=1.2.3"), "1.2.3");
}

#[test]
fn lte_major_minor() {
    assert_eq!(min("<=1.2"), "1.3.0");
}

#[test]
fn lte_major_only() {
    assert_eq!(min("<=2"), "3.0.0");
}

// Tilde

#[test]
fn tilde_full() {
    assert_eq!(min("~1.2.3"), "1.2.3");
}

#[test]
fn tilde_major_minor() {
    assert_eq!(min("~1.2"), "1.2.0");
}

#[test]
fn tilde_major_only() {
    assert_eq!(min("~1"), "1.0.0");
}

// Caret

#[test]
fn caret_major() {
    assert_eq!(min("^1.2.3"), "1.2.3");
}

#[test]
fn caret_zero_minor() {
    assert_eq!(min("^0.2.3"), "0.2.3");
}

#[test]
fn caret_zero_zero_patch() {
    assert_eq!(min("^0.0.3"), "0.0.3");
}

#[test]
fn caret_zero_zero() {
    assert_eq!(min("^0.0"), "0.0.0");
}

#[test]
fn caret_zero() {
    assert_eq!(min("^0"), "0.0.0");
}

// Wildcard

#[test]
fn wildcard_major_minor() {
    assert_eq!(min("1.2.*"), "1.2.0");
}

#[test]
fn wildcard_major() {
    assert_eq!(min("1.*"), "1.0.0");
}

// Combined

#[test]
fn version_req_combined_range() {
    // >=1.2.0, <2.0.0 - minimum should be 1.2.0
    assert_eq!(min(">=1.2.0, <2.0.0"), "1.2.0");
}

#[test]
fn version_req_combined_gt_lt() {
    // >0.5, <1.0 - minimum should be 0.6.0
    assert_eq!(min(">0.5, <1.0"), "0.6.0");
}

// Fallback

#[test]
fn star_only() {
    assert_eq!(min("*"), "0.0.0");
}

fn possible(req: &str) -> Vec<Version> {
    let req = parse_version_req(req).unwrap();
    assert!(req.has_minimum_version());
    possible_versions_for_req(&req)
}

#[test]
fn candidates_of_a_caret() {
    assert_eq!(possible("^1.2.3"), vec![Version::new(1, 2, 3), Version::new(2, 0, 0)]);
    assert_eq!(possible("^1"), vec![Version::new(1, 0, 0), Version::new(2, 0, 0)]);
    assert_eq!(possible("^0.2.3"), vec![Version::new(0, 2, 3), Version::new(0, 3, 0)]);
    assert_eq!(possible("^0.2"), vec![Version::new(0, 2, 0), Version::new(0, 3, 0)]);
    assert_eq!(possible("^0.0.3"), vec![Version::new(0, 0, 3)]);
    assert_eq!(possible("^0.0.0"), vec![Version::new(0, 0, 0)]);
    assert_eq!(possible("^0.0"), vec![Version::new(0, 0, 0), Version::new(1, 0, 0)]);
    assert_eq!(possible("^0"), vec![Version::new(0, 0, 0)]);
}

#[test]
fn candidates_of_the_other_operators() {
    assert_eq!(possible("~1.2.3"), vec![Version::new(1, 2, 3), Version::new(1, 3, 0)]);
    assert_eq!(possible("~1.2"), vec![Version::new(1, 2, 0), Version::new(1, 3, 0)]);
    assert_eq!(possible("~1"), vec![Version::new(1, 0, 0), Version::new(2, 0, 0)]);
    assert_eq!(possible("1.2.*"), vec![Version::new(1, 2, 0), Version::new(1, 3, 0)]);
    assert_eq!(possible("1.*"), vec![Version::new(1, 0, 0), Version::new(2, 0, 0)]);
    assert_eq!(possible(">=1.2, <2"), vec![Version::new(1, 2, 0), Version::new(2, 0, 0)]);
    assert_eq!(possible("<=1.2, >1"), vec![Version::new(1, 3, 0), Version::new(2, 0, 0)]);
    assert!(possible("*").is_empty());
}

#[test]
fn requirement_beyond_what_a_version_holds_has_no_minimum() {
    for text in [
        ">18446744073709551615",
        ">1.18446744073709551615",
        ">1.2.18446744073709551615",
        "<=18446744073709551615",
        "^18446744073709551615",
        "~1.18446744073709551615",
        "18446744073709551615.*",
        ">=1.0.0, >18446744073709551615",
    ] {
        let req = parse_version_req(text).unwrap();
        assert!(!req.has_minimum_version(), "{}", text);
        assert_eq!(req.minimum_version(), None, "{}", text);
    }
    // The greatest number itself is held.
    let req = parse_version_req("=18446744073709551615").unwrap();
    assert_eq!(req.minimum_version(), Some(Version::new(u64::MAX, 0, 0)));
    let req = parse_version_req(">=1.2.0, <2.0.0").unwrap();
    assert_eq!(req.minimum_version(), Some(Version::new(1, 2, 0)));
    let req = parse_version_req("*").unwrap();
    assert_eq!(req.minimum_version(), Some(Version::new(0, 0, 0)));
}
