use deputy::pep_version::{
    extract_completion_versions, extract_latest_version, extract_latest_version_filtered,
    PepVersioned,
};


struct PepTestVersion {
    version: String,
    deprecated: bool,
}

impl PepTestVersion {
    fn new(version: &str) -> Self {
        Self {
            version: version.to_string(),
            deprecated: false,
        }
    }

    fn deprecated(version: &str) -> Self {
        Self {
            version: version.to_string(),
            deprecated: true,
        }
    }
}

impl PepVersioned for PepTestVersion {
    fn raw_version_string(&self) -> String {
        self.version.clone()
    }

    fn deprecated(&self) -> bool {
        self.deprecated
    }
}

// extract_latest_version

#[test]
fn pep_version_latest_version_picks_highest() {
    let versions = vec![
        PepTestVersion::new("1.0.0"),
        PepTestVersion::new("1.1.0"),
        PepTestVersion::new("1.2.0"),
    ];
    let result = extract_latest_version("1.0.0", versions).unwrap();
    assert_eq!(result.item_version.to_string(), "1.2.0");
}

#[test]
fn pep_version_latest_version_exact_match() {
    let versions = vec![
        PepTestVersion::new("1.0.0"),
        PepTestVersion::new("1.1.0"),
        PepTestVersion::new("1.2.0"),
    ];
    let result = extract_latest_version("1.2.0", versions).unwrap();
    assert!(result.is_exactly_compatible);
    assert!(result.is_compatible);
}

#[test]
fn pep_version_latest_version_incompatible_when_newer_exists() {
    // Input "1.0.0" is a valid PEP 440 version. As a req it becomes "==1.0.0".
    // 2.0.0 is the latest but not compatible with ==1.0.0.
    let versions = vec![
        PepTestVersion::new("1.0.0"),
        PepTestVersion::new("1.5.0"),
        PepTestVersion::new("2.0.0"),
    ];
    let result = extract_latest_version("1.0.0", versions).unwrap();
    assert_eq!(result.item_version.to_string(), "2.0.0");
    assert!(!result.is_compatible);
}

#[test]
fn pep_version_latest_version_skips_deprecated() {
    let versions = vec![
        PepTestVersion::new("1.0.0"),
        PepTestVersion::deprecated("1.5.0"),
        PepTestVersion::new("1.2.0"),
    ];
    let result = extract_latest_version("1.0.0", versions).unwrap();
    assert_eq!(result.item_version.to_string(), "1.2.0");
}

#[test]
fn pep_version_latest_version_filters_prerelease() {
    let versions = vec![
        PepTestVersion::new("1.0.0"),
        PepTestVersion::new("1.1.0"),
        PepTestVersion::new("2.0.0a1"),
    ];
    // PEP 440 prerelease for 2.0.0 should be excluded since our version is 1.0.0
    let result = extract_latest_version("1.0.0", versions).unwrap();
    assert_eq!(result.item_version.to_string(), "1.1.0");
}

#[test]
fn pep_version_latest_version_includes_same_base_prerelease() {
    let versions = vec![
        PepTestVersion::new("1.0.0"),
        PepTestVersion::new("1.0.0b2"),
        PepTestVersion::new("1.0.0b1"),
    ];
    // Prereleases for 1.0.0 should be included since our version is also 1.0.0
    let result = extract_latest_version("1.0.0", versions).unwrap();
    assert_eq!(result.item_version.to_string(), "1.0.0");
}

#[test]
fn pep_version_latest_version_with_filter() {
    let versions = vec![
        PepTestVersion::new("1.0.0"),
        PepTestVersion::new("1.1.0"),
        PepTestVersion::new("1.2.0"),
    ];
    let result = extract_latest_version_filtered("1.0.0", versions, |v| v.item_version.minor() < 2)
        .unwrap();
    assert_eq!(result.item_version.to_string(), "1.1.0");
}

#[test]
fn latest_version_none_when_empty() {
    let versions: Vec<PepTestVersion> = vec![];
    let result = extract_latest_version("1.0.0", versions);
    assert!(result.is_none());
}

#[test]
fn pep_version_latest_version_none_when_invalid_input() {
    let versions = vec![PepTestVersion::new("1.0.0")];
    let result = extract_latest_version("not-a-version", versions);
    assert!(result.is_none());
}

// extract_completion_versions

#[test]
fn pep_version_completion_versions_prefix_filter() {
    let versions = vec![
        PepTestVersion::new("1.0.0"),
        PepTestVersion::new("1.1.0"),
        PepTestVersion::new("2.0.0"),
    ];
    let results = extract_completion_versions("1.", versions);
    assert_eq!(results.len(), 2);
    assert_eq!(results[0].item_version_raw, "1.1.0");
    assert_eq!(results[1].item_version_raw, "1.0.0");
}

#[test]
fn pep_version_completion_versions_empty_prefix() {
    let versions = vec![PepTestVersion::new("1.0.0"), PepTestVersion::new("2.0.0")];
    let results = extract_completion_versions("", versions);
    assert_eq!(results.len(), 2);
}

#[test]
fn pep_version_completion_versions_strips_specifier() {
    let versions = vec![
        PepTestVersion::new("1.0.0"),
        PepTestVersion::new("1.1.0"),
        PepTestVersion::new("2.0.0"),
    ];
    // ">=1." should strip ">=" and filter by "1."
    let results = extract_completion_versions(">=1.", versions);
    assert_eq!(results.len(), 2);
}

#[test]
fn pep_version_completion_versions_skips_deprecated() {
    let versions = vec![
        PepTestVersion::new("1.0.0"),
        PepTestVersion::deprecated("1.1.0"),
        PepTestVersion::new("1.2.0"),
    ];
    let results = extract_completion_versions("1.", versions);
    assert_eq!(results.len(), 2);
    assert_eq!(results[0].item_version_raw, "1.2.0");
    assert_eq!(results[1].item_version_raw, "1.0.0");
}

#[test]
fn pep_version_completion_versions_sorted_latest_first() {
    let versions = vec![
        PepTestVersion::new("1.2.0"),
        PepTestVersion::new("1.0.0"),
        PepTestVersion::new("1.10.0"),
        PepTestVersion::new("1.1.0"),
    ];
    let results = extract_completion_versions("1.", versions);
    let raw: Vec<_> = results
        .iter()
        .map(|r| r.item_version_raw.as_str())
        .collect();
    assert_eq!(raw, vec!["1.10.0", "1.2.0", "1.1.0", "1.0.0"]);
}

#[test]
fn pep_version_completion_versions_no_match() {
    let versions = vec![PepTestVersion::new("1.0.0"), PepTestVersion::new("1.1.0")];
    let results = extract_completion_versions("2.", versions);
    assert!(results.is_empty());
}
