use deputy::pep_types::{parse_pep_version, parse_pep_version_req, PepVersion, PepVersionReq};


fn v(s: &str) -> PepVersion {
    parse_pep_version(s).unwrap()
}

fn req(s: &str) -> PepVersionReq {
    parse_pep_version_req(s).unwrap()
}

// PepVersion accessors

#[test]
fn accessors_three_part() {
    let ver = v("1.2.3");
    assert_eq!(ver.major(), 1);
    assert_eq!(ver.minor(), 2);
    assert_eq!(ver.patch(), 3);
}

#[test]
fn accessors_two_part() {
    let ver = v("1.2");
    assert_eq!(ver.major(), 1);
    assert_eq!(ver.minor(), 2);
    assert_eq!(ver.patch(), 0);
}

#[test]
fn accessors_one_part() {
    let ver = v("5");
    assert_eq!(ver.major(), 5);
    assert_eq!(ver.minor(), 0);
    assert_eq!(ver.patch(), 0);
}

#[test]
fn accessors_four_part() {
    // PEP 440 allows arbitrary release segments
    let ver = v("1.2.3.4");
    assert_eq!(ver.major(), 1);
    assert_eq!(ver.minor(), 2);
    assert_eq!(ver.patch(), 3);
}

// Prerelease / stable

#[test]
fn stable_version() {
    let ver = v("1.0.0");
    assert!(!ver.is_prerelease());
    assert!(ver.is_stable());
}

#[test]
fn alpha_prerelease() {
    let ver = v("1.0.0a1");
    assert!(ver.is_prerelease());
    assert!(!ver.is_stable());
}

#[test]
fn beta_prerelease() {
    let ver = v("1.0.0b2");
    assert!(ver.is_prerelease());
    assert!(!ver.is_stable());
}

#[test]
fn release_candidate() {
    let ver = v("1.0.0rc1");
    assert!(ver.is_prerelease());
    assert!(!ver.is_stable());
}

#[test]
fn dev_release() {
    let ver = v("1.0.0.dev1");
    assert!(ver.is_prerelease());
    assert!(!ver.is_stable());
}

#[test]
fn post_release_is_stable() {
    let ver = v("1.0.0.post1");
    assert!(!ver.is_prerelease());
    assert!(ver.is_stable());
}

// Ordering

#[test]
fn ordering_basic() {
    assert!(v("1.0.0").lt(&v("1.1.0")));
    assert!(v("1.1.0").lt(&v("2.0.0")));
    assert!(v("1.0.0").lt(&v("1.0.1")));
}

#[test]
fn ordering_prerelease_before_release() {
    assert!(v("1.0.0a1").lt(&v("1.0.0")));
    assert!(v("1.0.0b1").lt(&v("1.0.0")));
    assert!(v("1.0.0rc1").lt(&v("1.0.0")));
}

// Display / FromStr round-trip

#[test]
fn display_roundtrip() {
    let ver = v("1.2.3");
    let s = ver.to_string();
    let ver2: PepVersion = parse_pep_version(&s).unwrap();
    assert_eq!(ver, ver2);
}

// PepVersionReq matching

#[test]
fn req_matches_equal() {
    let r = req("==1.2.3");
    assert!(r.matches(&v("1.2.3")));
    assert!(!r.matches(&v("1.2.4")));
}

#[test]
fn req_matches_gte() {
    let r = req(">=1.2.0");
    assert!(r.matches(&v("1.2.0")));
    assert!(r.matches(&v("1.3.0")));
    assert!(!r.matches(&v("1.1.0")));
}

#[test]
fn req_matches_combined() {
    let r = req(">=1.0, <2.0");
    assert!(r.matches(&v("1.0.0")));
    assert!(r.matches(&v("1.9.9")));
    assert!(!r.matches(&v("2.0.0")));
    assert!(!r.matches(&v("0.9.0")));
}

#[test]
fn req_matches_wildcard() {
    let r = req("==1.2.*");
    assert!(r.matches(&v("1.2.0")));
    assert!(r.matches(&v("1.2.99")));
    assert!(!r.matches(&v("1.3.0")));
}

#[test]
fn req_matches_tilde_equal() {
    // ~=1.4.5 means >=1.4.5, ==1.4.*
    let r = req("~=1.4.5");
    assert!(r.matches(&v("1.4.5")));
    assert!(r.matches(&v("1.4.9")));
    assert!(!r.matches(&v("1.5.0")));
    assert!(!r.matches(&v("1.4.4")));
}

struct Release {
    version: &'static str,
}

impl deputy::pep_version::PepVersioned for Release {
    fn raw_version_string(&self) -> String {
        self.version.to_string()
    }
}

#[test]
fn default_methods_of_a_pep_item_parse_its_string() {
    use_default_methods();
}

fn use_default_methods() {
    let item = Release { version: " 1.2.3rc1 " };
    let parsed = deputy::pep_version::PepVersioned::parse_version(&item).unwrap();
    assert_eq!(parsed.release, vec![1, 2, 3]);
    assert!(parsed.is_prerelease());
    assert_eq!(parsed.to_string(), "1.2.3rc1");
    assert!(deputy::pep_version::PepVersioned::parse_version_req(&item).is_none());
    let item = Release { version: " >=1.2, <2 " };
    assert!(deputy::pep_version::PepVersioned::parse_version(&item).is_none());
    let req = deputy::pep_version::PepVersioned::parse_version_req(&item).unwrap();
    assert_eq!(req.specifiers.len(), 2);
    assert!(req.matches(&parse_pep_version("1.5").unwrap()));
    assert!(!deputy::pep_version::PepVersioned::deprecated(&item));
}
