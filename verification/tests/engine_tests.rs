use std::str::FromStr;

use deputy::pep_types::{parse_pep_version, satisfies as pep_satisfies, PepVersion};
use deputy::pep_version::{
    extract_completion_versions as pep_completion_versions,
    extract_latest_version as pep_latest_version, Pep440,
};
use deputy::scheme::{VersionEntry, VersionScheme};
use deputy::version::{
    extract_completion_versions, extract_completion_versions_filtered, extract_latest_version,
    parse_version, satisfies, Semver, Version, Versioned,
};
use deputy::version_req::{minimum_version, parse_version_req, Comparator, Op};

fn entry(raw: &str) -> VersionEntry {
    VersionEntry { raw: raw.to_string(), deprecated: false }
}

fn deprecated(raw: &str) -> VersionEntry {
    VersionEntry { raw: raw.to_string(), deprecated: true }
}

/// An entry of a pool with its place in it.
struct Placed {
    place: usize,
    entry: VersionEntry,
}

impl Versioned for Placed {
    fn raw_version_string(&self) -> String {
        self.entry.raw.clone()
    }

    fn deprecated(&self) -> bool {
        self.entry.deprecated
    }
}

impl deputy::pep_version::PepVersioned for Placed {
    fn raw_version_string(&self) -> String {
        self.entry.raw.clone()
    }

    fn deprecated(&self) -> bool {
        self.entry.deprecated
    }
}

fn placed(pool: &[VersionEntry]) -> Vec<Placed> {
    pool.iter().cloned().enumerate().map(|(place, entry)| Placed { place, entry }).collect()
}

/// What was found of the latest version.
struct Found<V> {
    version: V,
    is_compatible: bool,
    is_exactly_compatible: bool,
}

fn latest_semver(reference: &str, pool: &[VersionEntry]) -> Option<(usize, Found<Version>)> {
    let x = extract_latest_version(reference, placed(pool))?;
    assert_eq!(Some(x.this_version), parse_version(reference));
    let found = Found {
        version: x.item_version,
        is_compatible: x.is_semver_compatible,
        is_exactly_compatible: x.is_exactly_compatible,
    };
    Some((x.item.place, found))
}

fn latest_pep(reference: &str, pool: &[VersionEntry]) -> Option<(usize, Found<PepVersion>)> {
    let x = pep_latest_version(reference, placed(pool))?;
    assert_eq!(Some(x.this_version), parse_pep_version(reference));
    let found = Found {
        version: x.item_version,
        is_compatible: x.is_compatible,
        is_exactly_compatible: x.is_exactly_compatible,
    };
    Some((x.item.place, found))
}

fn completion_semver(partial: &str, pool: &[VersionEntry]) -> Vec<usize> {
    extract_completion_versions(partial, placed(pool)).iter().map(|c| c.item.place).collect()
}

fn completion_pep(partial: &str, pool: &[VersionEntry]) -> Vec<usize> {
    pep_completion_versions(partial, placed(pool)).iter().map(|c| c.item.place).collect()
}

#[test]
fn latest_of_a_pool_is_incompatible_with_an_older_major() {
    let pool = vec![entry("1.0.0"), entry("1.1.0"), entry("2.0.0")];
    let (place, found) = latest_semver("1.0.0", &pool).unwrap();
    assert_eq!(place, 2);
    assert_eq!(found.version.to_string(), "2.0.0");
    assert!(!found.is_compatible);
    assert!(!found.is_exactly_compatible);
}

#[test]
fn release_wins_over_its_prereleases() {
    let pool = vec![entry("1.0.0-beta.1"), entry("1.0.0-beta.2"), entry("1.0.0")];
    let (place, found) = latest_semver("1.0.0", &pool).unwrap();
    assert_eq!(place, 2);
    assert_eq!(found.version.to_string(), "1.0.0");
    assert!(found.is_exactly_compatible);
    assert!(found.is_compatible);
}

#[test]
fn prereleases_of_the_same_release_are_seen() {
    let pool = vec![entry("1.0.0-beta.1"), entry("1.0.0-beta.2"), entry("0.9.0")];
    let (place, found) = latest_semver("1.0.0-beta.1", &pool).unwrap();
    assert_eq!(place, 1);
    assert_eq!(found.version.pre, "beta.2");
    // Seen from another release the prereleases are hidden.
    let (place, _) = latest_semver("0.9.0", &pool).unwrap();
    assert_eq!(place, 2);
}

#[test]
fn deprecated_entries_are_never_chosen_nor_offered() {
    let pool = vec![deprecated("9.9.9"), entry("1.0.0"), deprecated("1.0.1")];
    let (place, _) = latest_semver("1.0.0", &pool).unwrap();
    assert_eq!(place, 1);
    assert_eq!(completion_semver("", &pool), vec![1]);
    let all = vec![deprecated("1.0.0"), deprecated("2.0.0")];
    assert!(latest_semver("1.0.0", &all).is_none());
    assert!(completion_semver("", &all).is_empty());
    assert!(latest_pep("1.0.0", &all).is_none());
    assert!(completion_pep("", &all).is_empty());
}

#[test]
fn choosing_again_from_the_choice_keeps_it() {
    let pool = vec![entry("1.0.0"), entry(" 1.4.2 "), entry("1.1.0")];
    let (place, first) = latest_semver("1.0.0", &pool).unwrap();
    assert_eq!(place, 1);
    assert!(!first.is_exactly_compatible);
    let reference = first.version.to_string();
    let again = vec![entry(" 1.4.2 ")];
    let (place, second) = latest_semver(&reference, &again).unwrap();
    assert_eq!(place, 0);
    assert_eq!(second.version, first.version);
    assert!(second.is_exactly_compatible);
    assert!(second.is_compatible);
    // With the reference as it was, the choice stands to it as before.
    let (place, same) = latest_semver("1.0.0", &again).unwrap();
    assert_eq!(place, 0);
    assert_eq!(same.version, first.version);
    assert_eq!(same.is_compatible, first.is_compatible);
    assert_eq!(same.is_exactly_compatible, first.is_exactly_compatible);

    let pool = vec![entry("1.0"), entry("2.1rc1"), entry("2.0.post1")];
    let (place, first) = latest_pep("1.0", &pool).unwrap();
    assert_eq!(place, 2);
    let reference = first.version.to_string();
    assert_eq!(reference, "2.0.post1");
    let (place, second) = latest_pep(&reference, &vec![entry("2.0.post1")]).unwrap();
    assert_eq!(place, 0);
    assert_eq!(second.version, first.version);
    assert!(second.is_exactly_compatible);
}

#[test]
fn among_equal_versions_the_last_is_chosen() {
    let pool = vec![entry("1.0.0"), entry(" 1.0.0"), entry("0.1.0")];
    let (place, _) = latest_semver("0.1.0", &pool).unwrap();
    assert_eq!(place, 1);
    // PEP 440 counts 1.0 and 1.0.0 as one version.
    let pool = vec![entry("1.0"), entry("1.0.0"), entry("0.1")];
    let (place, _) = latest_pep("0.1", &pool).unwrap();
    assert_eq!(place, 1);
}

#[test]
fn reference_that_is_no_version_chooses_nothing() {
    let pool = vec![entry("1.0.0")];
    assert!(latest_semver("^1.0.0", &pool).is_none());
    assert!(latest_semver("", &pool).is_none());
    assert!(latest_pep(">=1.0", &pool).is_none());
}

#[test]
fn entries_that_are_no_versions_are_passed_over() {
    let pool = vec![entry("latest"), entry("1.0"), entry("1.2.3"), entry("")];
    let (place, _) = latest_semver("1.0.0", &pool).unwrap();
    assert_eq!(place, 2);
    assert!(latest_semver("1.0.0", &vec![entry("latest")]).is_none());
}

#[test]
fn reference_read_as_a_requirement_decides_compatibility() {
    let pool = vec![entry("1.9.0")];
    let (_, found) = latest_semver("1.0.0", &pool).unwrap();
    assert!(found.is_compatible);
    assert!(!found.is_exactly_compatible);
    // In PEP 440 a bare version is no requirement.
    let (_, found) = latest_pep("1.0.0", &pool).unwrap();
    assert!(!found.is_compatible);
}

#[test]
fn completion_orders_versions_as_versions() {
    let pool = vec![entry("1.2.0"), entry("1.0.0"), entry("1.10.0"), entry("1.1.0"), entry("2.0.0")];
    assert_eq!(completion_semver("1.", &pool), vec![2, 0, 3, 1]);
    assert_eq!(completion_semver("^1.", &pool), vec![2, 0, 3, 1]);
    assert_eq!(completion_semver("  >=1.1", &pool), vec![2, 3]);
    assert_eq!(completion_pep("~=1.", &pool), vec![2, 0, 3, 1]);
    assert_eq!(completion_pep(">= 1.", &pool), vec![2, 0, 3, 1]);
    // White space between and after the operators is taken off with them.
    assert_eq!(completion_semver(">= 1.", &pool), vec![2, 0, 3, 1]);
    assert_eq!(completion_semver(" > = ^ 1.1 ", &pool), vec![2, 3]);
    assert_eq!(completion_pep(" ! = ~ 1.1 ", &pool), vec![2, 3]);
    assert_eq!(completion_semver("", &pool), vec![4, 2, 0, 3, 1]);
    assert!(completion_semver("3", &pool).is_empty());
}

#[test]
fn completion_falls_back_to_the_order_of_strings() {
    // Neither is a version of the first scheme: as strings "1.2" comes after "1.10".
    let pool = vec![entry("1.10"), entry("1.2")];
    assert_eq!(completion_semver("1.", &pool), vec![1, 0]);
    // Both are versions of PEP 440.
    assert_eq!(completion_pep("1.", &pool), vec![0, 1]);
    // One is a version and one is not: still as strings.
    let pool = vec![entry("1.10.0"), entry("1.9")];
    assert_eq!(completion_semver("1.", &pool), vec![1, 0]);
}

#[test]
fn completion_with_versions_and_other_strings_is_ordered_pair_by_pair() {
    let pool = vec![entry("1.9"), entry("1.10.0"), entry("1.2.0"), entry("1.x")];
    let order = completion_semver("1.", &pool);
    assert_eq!(order.len(), 4);
    let le = |a: &str, b: &str| match (parse_version(a), parse_version(b)) {
        (Some(_), Some(_)) => Semver::le(a, b),
        _ => a <= b,
    };
    for k in 0..order.len() - 1 {
        assert!(le(&pool[order[k + 1]].raw, &pool[order[k]].raw));
    }
    let mut seen = order.clone();
    seen.sort();
    assert_eq!(seen, vec![0, 1, 2, 3]);
}

struct Item {
    version: &'static str,
    yanked: bool,
    size: u32,
}

impl Versioned for Item {
    fn raw_version_string(&self) -> String {
        self.version.to_string()
    }

    fn deprecated(&self) -> bool {
        self.yanked
    }
}

#[test]
fn completion_keeps_what_the_filter_lets_through() {
    let pool = vec![
        Item { version: "1.0.0", yanked: false, size: 1 },
        Item { version: "1.1.0", yanked: false, size: 200 },
        Item { version: "1.2.0", yanked: true, size: 1 },
        Item { version: "1.3.0-rc.1", yanked: false, size: 3 },
        Item { version: "2.0.0", yanked: false, size: 1 },
    ];
    let offers = extract_completion_versions_filtered("~1.", pool, |item| item.size < 100);
    let raw: Vec<&str> = offers.iter().map(|o| o.item_version_raw.as_str()).collect();
    assert_eq!(raw, vec!["1.3.0-rc.1", "1.0.0"]);
    assert_eq!(offers[0].item.size, 3);
    assert_eq!(offers[0].this_version_raw, "1.");
    assert!(offers[0].this_version.is_none());
    assert_eq!(offers[0].item_version.as_ref().unwrap().pre, "rc.1");
    assert_eq!(offers[1].item_version, Some(Version::new(1, 0, 0)));
}

#[test]
fn default_methods_of_an_item_parse_its_string() {
    let item = Item { version: " 1.2.3 ", yanked: false, size: 0 };
    assert_eq!(item.parse_version(), Some(Version::new(1, 2, 3)));
    let req = item.parse_version_req().unwrap();
    assert_eq!(
        req.comparators,
        vec![Comparator { op: Op::Caret, major: 1, minor: Some(2), patch: Some(3) }]
    );
    assert!(!"1.0.0".deprecated());
    assert_eq!("1.0.0".to_string().raw_version_string(), "1.0.0");
    assert_eq!(Version::new(1, 2, 3).raw_version_string(), "1.2.3");
}

#[test]
fn versions_are_read_as_the_semver_crate_reads_them() {
    for text in ["1.2.3", "0.0.0", "1.0.0-alpha.1", "1.0.0+build.5", "1.0.0-rc.1+exp.sha", "10.20.30"] {
        let ours = parse_version(text).unwrap();
        let theirs = semver::Version::parse(text).unwrap();
        assert_eq!(ours.major, theirs.major);
        assert_eq!(ours.minor, theirs.minor);
        assert_eq!(ours.patch, theirs.patch);
        assert_eq!(ours.pre, theirs.pre.as_str());
        assert_eq!(ours.build, theirs.build.as_str());
        assert_eq!(ours.to_string(), theirs.to_string());
        assert_eq!(ours.is_prerelease(), !theirs.pre.is_empty());
        assert_eq!(parse_version(&ours.to_string()), Some(ours));
    }
    for text in ["", "1", "1.2", "01.2.3", "1.2.3-", "v1.2.3", "1.2.3 4"] {
        assert!(parse_version(text).is_none(), "{:?}", text);
    }
    assert_eq!(
        parse_version("18446744073709551615.0.0").unwrap().to_string(),
        "18446744073709551615.0.0"
    );
}

#[test]
fn order_of_versions_is_that_of_the_semver_crate() {
    let samples = ["1.0.0", "1.0.0-alpha", "1.0.0-alpha.1", "1.0.0-beta", "1.0.0+b", "0.9.9", "1.10.0", "1.2.0"];
    for a in samples {
        for b in samples {
            let theirs = semver::Version::parse(a).unwrap() <= semver::Version::parse(b).unwrap();
            assert_eq!(Semver::le(a, b), theirs);
        }
    }
    assert!(!Semver::le("1.0.0", "x"));
    assert!(!Semver::le("x", "1.0.0"));
    assert!(!Semver::le("x", "x"));
}

#[test]
fn requirements_match_as_in_the_semver_crate() {
    assert!(satisfies("^1.2", " 1.9.0 "));
    assert!(!satisfies("^1.2", "2.0.0"));
    assert!(satisfies(">=1.0.0, <2.0.0", "1.5.0"));
    assert!(!satisfies(">=1.0.0, <2.0.0", "2.0.0"));
    assert!(!satisfies("not a requirement", "1.0.0"));
    assert!(!satisfies("^1.2", "not a version"));
    assert!(satisfies("*", "0.0.1"));
}

#[test]
fn requirements_are_read_as_the_semver_crate_reads_them() {
    let req = parse_version_req(" >=1.2.0, <2 ").unwrap();
    assert_eq!(
        req.comparators,
        vec![
            Comparator { op: Op::GreaterEq, major: 1, minor: Some(2), patch: Some(0) },
            Comparator { op: Op::Less, major: 2, minor: None, patch: None },
        ]
    );
    let ops = [
        ("=1", Op::Exact), (">1", Op::Greater), (">=1", Op::GreaterEq), ("<1", Op::Less),
        ("<=1", Op::LessEq), ("~1", Op::Tilde), ("^1", Op::Caret), ("1", Op::Caret), ("1.*", Op::Wildcard),
    ];
    for (text, op) in ops {
        assert_eq!(parse_version_req(text).unwrap().comparators[0].op, op, "{}", text);
    }
    assert!(parse_version_req("*").unwrap().comparators.is_empty());
    assert!(parse_version_req("").is_none());
    assert!(parse_version_req(">>1").is_none());
}

#[test]
fn minimum_version_of_a_text() {
    assert_eq!(minimum_version(">=1.2.0, <2.0.0").unwrap().to_string(), "1.2.0");
    assert_eq!(minimum_version(" >0.5, <1.0 ").unwrap().to_string(), "0.6.0");
    assert_eq!(minimum_version("^0").unwrap().to_string(), "0.0.0");
    assert_eq!(minimum_version("*").unwrap().to_string(), "0.0.0");
    assert_eq!(minimum_version("no requirement").unwrap().to_string(), "0.0.0");
    assert_eq!(minimum_version("").unwrap().to_string(), "0.0.0");
    // The lowest of all candidates, whichever comparator names it.
    assert_eq!(minimum_version("<3, >=1.5").unwrap().to_string(), "1.5.0");
    assert_eq!(minimum_version("<=1, >=1.5").unwrap().to_string(), "1.5.0");
    assert_eq!(minimum_version("<=0.3.0, >0.1").unwrap().to_string(), "0.2.0");
    assert_eq!(minimum_version("^0.0").unwrap().to_string(), "0.0.0");
    assert_eq!(minimum_version("^0.0.3").unwrap().to_string(), "0.0.3");
    assert_eq!(minimum_version("~0").unwrap().to_string(), "0.0.0");
}

#[test]
fn minimum_version_beyond_what_a_version_holds() {
    assert!(minimum_version(">18446744073709551615").is_none());
    assert!(minimum_version(">1.18446744073709551615").is_none());
    assert!(minimum_version(">1.2.18446744073709551615").is_none());
    assert!(minimum_version("^18446744073709551615").is_none());
    assert!(minimum_version("<=18446744073709551615").is_none());
    assert!(minimum_version("~1.18446744073709551615").is_none());
    assert!(minimum_version("18446744073709551615.*").is_none());
    assert_eq!(
        minimum_version("=18446744073709551615").unwrap().to_string(),
        "18446744073709551615.0.0"
    );
    assert_eq!(
        minimum_version("<18446744073709551615").unwrap().to_string(),
        "18446744073709551615.0.0"
    );
    assert_eq!(
        deputy::pep_version_req::minimum_version(">=18446744073709551615").unwrap().to_string(),
        "18446744073709551615.0.0"
    );
    assert!(deputy::pep_version_req::minimum_version(">18446744073709551615").is_none());
}

#[test]
fn pep_versions_are_read_as_the_pep440_crate_reads_them() {
    for text in ["1.2.3", "1.0", "5", "1.0a1", "1.0.0.dev1", "1.0.post2", "2!1.0", "1.0+local.1", "1.0-ALPHA1", "1.2.3.4.5"] {
        let ours = parse_pep_version(text).unwrap();
        let theirs = pep440_rs::Version::from_str(text).unwrap();
        assert_eq!(ours.release, theirs.release().to_vec());
        assert_eq!(ours.is_stable(), theirs.is_stable());
        assert_eq!(ours.is_prerelease(), theirs.any_prerelease());
        assert_eq!(ours.to_string(), theirs.to_string());
    }
    assert!(parse_pep_version("not-a-version").is_none());
    assert!(parse_pep_version("").is_none());
    assert_eq!(PepVersion::new(1, 2, 3), parse_pep_version("1.2.3").unwrap());
    assert_eq!(PepVersion::new(0, 0, 0).to_string(), "0.0.0");
    assert!(PepVersion::new(1, 0, 0).same_release(&parse_pep_version("1").unwrap()));
    assert!(!PepVersion::new(1, 0, 1).same_release(&parse_pep_version("1").unwrap()));
}

#[test]
fn pep_order_and_requirements_are_those_of_the_pep440_crate() {
    let samples = ["1.0", "1.0.0", "1.0a1", "1.0.dev1", "1.0.post1", "0.9", "1.10", "1.2", "2!0.1"];
    for a in samples {
        for b in samples {
            let theirs = pep440_rs::Version::from_str(a).unwrap() <= pep440_rs::Version::from_str(b).unwrap();
            assert_eq!(Pep440::le(a, b), theirs, "{} <= {}", a, b);
        }
    }
    assert!(!Pep440::le("1.0", "x"));
    assert!(pep_satisfies(" >=1.0, <2.0 ", " 1.5 "));
    assert!(!pep_satisfies(">=1.0, <2.0", "2.0"));
    assert!(!pep_satisfies("1.0", "1.0"));
    assert!(pep_satisfies("~=1.4.5", "1.4.9"));
}
