use deputy::clients::crates::LocalMetadata;
use deputy::clients::pypi::{RegistryMetadataInfo, SimpleMetadataVersion};
use deputy::tools::cargo::{
    check_local_version, check_version, first_match, sort_text, unknown_features, IndexVersion,
    LocalFinding, VersionFinding,
};
use deputy::tools::gomod::{
    check_version as check_go_version, parse_version_list, repository_link, strip_v,
    VersionFinding as GoFinding,
};
use deputy::tools::packages::{
    top_go_packages_prefixed, top_pypi_packages_prefixed, GoPackage, PyPiPackage,
};
use deputy::tools::pyproject::{
    availability, check_version as check_py_version, hover_links, unknown_extras, Availability,
    VersionFinding as PyFinding,
};
use deputy::tools::{ServeCommand, TransportChoice};
use deputy::version::Version;

fn index(version: &str, yanked: bool) -> IndexVersion {
    IndexVersion { version: version.to_string(), yanked }
}

#[test]
fn cargo_version_that_no_version_meets() {
    let metas = vec![index("1.0.0", false), index("1.1.0", false)];
    assert_eq!(check_version("^2", metas.clone()), VersionFinding::NoMatch);
    assert_eq!(check_version("=1.0.1", metas.clone()), VersionFinding::NoMatch);
    assert_eq!(check_version("^1", vec![]), VersionFinding::NoMatch);
    assert_eq!(check_version("one", metas.clone()), VersionFinding::NotARequirement);
    assert_eq!(check_version(">18446744073709551615", metas), VersionFinding::NotARequirement);
}

#[test]
fn cargo_version_that_is_behind() {
    let metas = vec![index("1.0.0", false), index("2.0.0", false), index("1.5.0", false)];
    assert_eq!(
        check_version("1.0", metas.clone()),
        VersionFinding::Newer { current: String::from("1.0.0"), latest: String::from("2.0.0") }
    );
    assert_eq!(check_version("2", metas.clone()), VersionFinding::Nothing);
    // The latest version is held against the lowest version, not against the requirement.
    assert_eq!(
        check_version(">=1", metas),
        VersionFinding::Newer { current: String::from("1.0.0"), latest: String::from("2.0.0") }
    );
}

#[test]
fn cargo_version_passes_over_what_is_yanked() {
    let metas = vec![index("1.0.0", false), index("2.0.0", true), index("1.5.0", false)];
    assert_eq!(check_version("1.0", metas), VersionFinding::Nothing);
    // The version asked for is yanked itself: it still counts.
    let metas = vec![index("1.0.0", true), index("0.9.0", false)];
    assert_eq!(check_version("=1.0.0", metas), VersionFinding::Nothing);
    let metas = vec![index("1.0.0", false), index("3.0.0-rc.1", false), index("2.0.0", true)];
    assert_eq!(check_version("1", metas), VersionFinding::Nothing);
}

#[test]
fn first_version_that_meets_a_requirement() {
    let metas = vec![index("0.9.0", false), index("bad", false), index(" 1.2.0 ", true), index("1.3.0", false)];
    assert_eq!(first_match("^1", &metas), Some(2));
    assert_eq!(first_match("^0.9", &metas), Some(0));
    assert_eq!(first_match("^2", &metas), None);
    assert_eq!(first_match("bad", &metas), None);
}

#[test]
fn local_version_next_to_a_requirement() {
    let local = |v: Option<Version>| LocalMetadata { version: v, features: vec![] };
    assert_eq!(check_local_version("^1.2", &local(Some(Version::new(1, 3, 0)))), LocalFinding::Nothing);
    assert_eq!(check_local_version("^1.2", &local(Some(Version::new(2, 0, 0)))), LocalFinding::Mismatch);
    assert_eq!(check_local_version("^1.2", &local(None)), LocalFinding::Nothing);
    assert_eq!(check_local_version("x", &local(Some(Version::new(2, 0, 0)))), LocalFinding::Nothing);
}

fn names(list: &[&str]) -> Vec<String> {
    list.iter().map(|n| n.to_string()).collect()
}

#[test]
fn features_and_extras_that_are_unknown() {
    let known = names(&["default", "std", "Serde"]);
    assert_eq!(unknown_features(&names(&["std", "serde", "Std", "default", ""]), &known), vec![1, 2, 4]);
    assert!(unknown_features(&names(&[]), &known).is_empty());
    assert_eq!(unknown_features(&names(&["a"]), &names(&[])), vec![0]);
    assert_eq!(unknown_extras(&names(&[" std ", "SERDE", "socks", "serde "]), &known), vec![2]);
    assert_eq!(unknown_extras(&names(&["a", "b"]), &names(&[])), vec![0, 1]);
}

#[test]
fn text_to_sort_by() {
    assert_eq!(sort_text(0), "00000");
    assert_eq!(sort_text(3), "00003");
    assert_eq!(sort_text(63), "00063");
    assert_eq!(sort_text(99999), "99999");
    assert_eq!(sort_text(100000), "100000");
    assert_eq!(sort_text(1234567), "1234567");
}

#[test]
fn go_version_that_the_module_lacks() {
    assert_eq!(check_go_version("v1.0.0", &names(&[])), GoFinding::NoVersions);
    assert_eq!(check_go_version("v1.0.1", &names(&["v1.0.0", "v1.1.0"])), GoFinding::VersionMissing);
    assert_eq!(check_go_version("", &names(&["v1.0.0"])), GoFinding::VersionMissing);
}

#[test]
fn go_version_that_is_behind() {
    let versions = names(&["v1.0.0", "v1.2.0-RC1", "v1.1.0", "v2.0.0-beta"]);
    assert_eq!(
        check_go_version("v1.0.0", &versions),
        GoFinding::Newer { current: String::from("1.0.0"), latest: String::from("v1.1.0") }
    );
    assert_eq!(check_go_version("1.1.0", &versions), GoFinding::Nothing);
    assert_eq!(check_go_version("V1.2.0-rc1", &versions), GoFinding::VersionMissing);
    // The latest is what is asked for, but for the case of its letters.
    assert_eq!(check_go_version("v1.2.0-rc1", &versions), GoFinding::Nothing);
    assert_eq!(
        check_go_version("v1.2.0-rc1", &names(&["v1.2.0-rc1", "v1.2.0-rc2", "v1.3.0-rc1"])),
        GoFinding::Newer { current: String::from("1.2.0-rc1"), latest: String::from("v1.2.0-rc2") }
    );
    // What is no version finds nothing to compare with.
    assert_eq!(check_go_version("vmaster", &names(&["master", "v1.0.0"])), GoFinding::Nothing);
    assert_eq!(strip_v("vv1"), "1");
    assert_eq!(strip_v("1v"), "1v");
}

#[test]
fn address_of_a_repository_of_a_module() {
    assert_eq!(repository_link("github.com/owner/repo").as_deref(), Some("https://github.com/owner/repo"));
    assert_eq!(repository_link("github.com/owner/repo/v2/x").as_deref(), Some("https://github.com/owner/repo"));
    assert_eq!(repository_link("github.com/owner/").as_deref(), Some("https://github.com/owner/"));
    assert_eq!(repository_link("github.com/owner"), None);
    assert_eq!(repository_link("golang.org/x/text"), None);
    assert_eq!(repository_link(""), None);
}

#[test]
fn versions_that_the_proxy_lists() {
    assert_eq!(parse_version_list("v1.0.0\nv1.1.0\n"), vec!["v1.0.0", "v1.1.0"]);
    assert_eq!(parse_version_list("v1.0.0\r\n\r\n  v1.1.0  \n\n\nv2"), vec!["v1.0.0", "v1.1.0", "v2"]);
    assert!(parse_version_list("").is_empty());
    assert!(parse_version_list("\n \n\t\n").is_empty());
    assert_eq!(parse_version_list("one"), vec!["one"]);
}

#[test]
fn lines_of_the_list_of_go_packages() {
    let package = GoPackage::from_str("github.com/a/b:Display Name:\"does things: well\"").unwrap();
    assert_eq!(package.path, "github.com/a/b");
    assert_eq!(package.name, "Display Name");
    assert_eq!(package.description, "does things: well");
    assert_eq!(package.as_ref(), "github.com/a/b");
    let package = GoPackage::from_str("::\"\"").unwrap();
    assert_eq!((package.path.as_str(), package.name.as_str(), package.description.as_str()), ("", "", ""));
    assert_eq!(GoPackage::from_str("no colon").unwrap_err(), "missing path");
    assert_eq!(GoPackage::from_str("").unwrap_err(), "missing path");
    assert_eq!(GoPackage::from_str("path:name").unwrap_err(), "missing name");
    assert_eq!(GoPackage::from_str("path:name:plain").unwrap_err(), "unquoted description");
    assert_eq!(GoPackage::from_str("path:name:\"open").unwrap_err(), "unquoted description");
    assert_eq!(GoPackage::from_str("path:name:close\"").unwrap_err(), "unquoted description");
    assert_eq!(GoPackage::from_str("path:name:\"").unwrap_err(), "unquoted description");
    assert_eq!(GoPackage::from_str("path:name:").unwrap_err(), "unquoted description");
}

#[test]
fn well_known_packages_by_prefix() {
    let go: Vec<GoPackage> = ["github.com/a/x:X:\"\"", "golang.org/x/text:T:\"\"", "github.com/a/y:Y:\"\"", "github.com/b/z:Z:\"\""]
        .iter()
        .map(|l| GoPackage::from_str(l).unwrap())
        .collect();
    let found: Vec<&str> = top_go_packages_prefixed(&go, "github.com/", 10).iter().map(|p| p.name.as_str()).collect();
    assert_eq!(found, vec!["X", "Y", "Z"]);
    let found: Vec<&str> = top_go_packages_prefixed(&go, "github.com/", 2).iter().map(|p| p.name.as_str()).collect();
    assert_eq!(found, vec!["X", "Y"]);
    assert!(top_go_packages_prefixed(&go, "github.com/", 0).is_empty());
    assert!(top_go_packages_prefixed(&go, "x", 10).is_empty());
    assert_eq!(top_go_packages_prefixed(&go, "", 10).len(), 4);
    let py: Vec<PyPiPackage> = [" requests ", "numpy", "regex"].iter().map(|l| PyPiPackage::from_str(l)).collect();
    assert_eq!(py[0].name, "requests");
    assert_eq!(py[0].ranking, 0);
    assert_eq!(py[0].as_ref(), "requests");
    let found: Vec<&str> = top_pypi_packages_prefixed(&py, "re", 5).iter().map(|p| p.name.as_str()).collect();
    assert_eq!(found, vec!["requests", "regex"]);
    let found: Vec<&str> = top_pypi_packages_prefixed(&py, "re", 1).iter().map(|p| p.name.as_str()).collect();
    assert_eq!(found, vec!["requests"]);
}

fn py(version: &str, yanked: bool) -> SimpleMetadataVersion {
    SimpleMetadataVersion { version: version.to_string(), yanked }
}

#[test]
fn python_versions_that_meet_a_requirement() {
    let versions = vec![py("0.9", false), py("1.0", true), py("bad", false), py("1.1", true)];
    assert_eq!(availability(">=1.0", &versions), Availability { has_versions: true, all_yanked: true });
    assert_eq!(availability(">=0.9", &versions), Availability { has_versions: true, all_yanked: false });
    assert_eq!(availability(">=2", &versions), Availability { has_versions: false, all_yanked: true });
    assert_eq!(availability(">=1", &vec![]), Availability { has_versions: false, all_yanked: true });
}

#[test]
fn python_version_findings() {
    let versions = vec![py("0.9", false), py("1.0", true), py("1.1", true), py("2.0", false), py("3.0a1", false)];
    assert_eq!(check_py_version("requests", versions.clone()), PyFinding::NotARequirement);
    assert_eq!(check_py_version(">18446744073709551615", versions.clone()), PyFinding::NotARequirement);
    assert_eq!(check_py_version(">=4", versions.clone()), PyFinding::Missing { minimum: String::from("4.0.0") });
    assert_eq!(
        check_py_version(" >=1.0, <2 ", versions.clone()),
        PyFinding::Yanked { minimum: String::from("1.0.0") }
    );
    assert_eq!(
        check_py_version("==0.9", versions.clone()),
        PyFinding::Newer { current: String::from("0.9.0"), latest: String::from("2.0") }
    );
    assert_eq!(
        check_py_version(">=0.9", versions.clone()),
        PyFinding::Newer { current: String::from("0.9.0"), latest: String::from("2.0") }
    );
    // The latest version is compared with the lowest version as it is written.
    assert_eq!(
        check_py_version("==2.0", versions),
        PyFinding::Newer { current: String::from("2.0.0"), latest: String::from("2.0") }
    );
    assert_eq!(check_py_version("==2.0", vec![py("1.0", false), py("2.0.0", false)]), PyFinding::Nothing);
}

fn info(home: Option<&str>, urls: Option<Vec<(&str, &str)>>) -> RegistryMetadataInfo {
    RegistryMetadataInfo {
        name: String::from("requests"),
        version: String::from("2.0"),
        summary: None,
        description: None,
        author: None,
        author_email: None,
        license: None,
        home_page: home.map(|h| h.to_string()),
        project_url: None,
        project_urls: urls.map(|u| u.iter().map(|(k, v)| (k.to_string(), v.to_string())).collect()),
        requires_python: None,
        provides_extra: None,
        yanked: false,
        yanked_reason: None,
    }
}

#[test]
fn addresses_of_a_hover() {
    let links = hover_links(&info(None, None));
    assert_eq!((links.documentation, links.repository, links.homepage), (None, None, None));
    let links = hover_links(&info(Some("https://home"), None));
    assert_eq!(links.homepage.as_deref(), Some("https://home"));
    let links = hover_links(&info(
        None,
        Some(vec![
            ("Changelog", "https://log"),
            ("Source Code", "https://src"),
            ("Repository", "https://repo"),
            ("Docs", "https://docs"),
            ("Homepage", "https://home"),
            ("Documentation", "https://more"),
        ]),
    ));
    assert_eq!(links.repository.as_deref(), Some("https://src"));
    assert_eq!(links.documentation.as_deref(), Some("https://docs"));
    assert_eq!(links.homepage.as_deref(), Some("https://home"));
}

#[test]
fn addresses_of_a_hover_are_not_repeated() {
    let links = hover_links(&info(
        Some("https://same"),
        Some(vec![("GitHub", "https://same"), ("docs", "https://same"), ("Home", "https://other")]),
    ));
    assert_eq!(links.repository.as_deref(), Some("https://same"));
    assert_eq!(links.documentation, None);
    assert_eq!(links.homepage, None);
    // A name is read for the first thing that it tells of and that is still missing.
    let links = hover_links(&info(
        None,
        Some(vec![("source", "https://a"), ("source docs", "https://b"), ("github", "https://c"), ("my github home", "https://d")]),
    ));
    assert_eq!(links.repository.as_deref(), Some("https://a"));
    assert_eq!(links.documentation.as_deref(), Some("https://b"));
    assert_eq!(links.homepage.as_deref(), Some("https://d"));
    let links = hover_links(&info(None, Some(vec![("xgithub", "https://x")])));
    assert_eq!(links.repository, None);
}

#[test]
fn transport_of_the_server() {
    let command = |socket, stdio| ServeCommand { socket, stdio, github_token: None };
    assert_eq!(command(Some(8080), false).transport(), TransportChoice::Socket(8080));
    assert_eq!(command(Some(8080), true).transport(), TransportChoice::Socket(8080));
    assert_eq!(command(None, true).transport(), TransportChoice::Stdio);
    assert_eq!(command(None, false).transport(), TransportChoice::Unspecified);
}
