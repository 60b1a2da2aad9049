use deputy::clients::crates::{index_path, parse_local_manifest, CratesCache};
use deputy::clients::github::{
    is_json_extension, GitNodeKind, GitTreeNode, GitTreeRoot, GithubClient,
};
use deputy::clients::golang::{
    encode_module_path, extract_github_owner_repo, GolangCache, GolangClient, ModuleVersion,
};
use deputy::clients::npm::NpmClient;
use deputy::clients::pypi::{
    normalize_name, PyPiCache, PyPiClient, RegistryMetadata, RegistryMetadataInfo,
    RegistryMetadataRelease, SimpleMetadata, SimpleMetadataFile,
};
use deputy::clients::shared::{distinct_names, is_absent, is_failure, RequestError, RequestResult};
use deputy::clients::wally::{
    Metadata, MetadataDependencies, MetadataPackage, MetadataRealm, WallyClient,
};
use deputy::clients::Clients;
use deputy::pep_version::PepVersioned;
use deputy::version::{Version, Versioned};

fn node(kind: GitNodeKind, path: &str) -> GitTreeNode {
    GitTreeNode {
        sha: String::from("abc"),
        url: String::from("https://example.com"),
        kind,
        size: Some(1),
        path: path.to_string(),
    }
}

fn tree() -> GitTreeRoot {
    GitTreeRoot {
        sha: String::from("root"),
        url: String::from("https://example.com"),
        tree: vec![
            node(GitNodeKind::Tree, "src"),
            node(GitNodeKind::Blob, "src/Lib.rs"),
            node(GitNodeKind::Blob, "package.JSON"),
            node(GitNodeKind::Tree, "docs"),
            node(GitNodeKind::Blob, "docs/README.md"),
            node(GitNodeKind::Blob, "docs/data.json"),
            node(GitNodeKind::Blob, "json"),
            node(GitNodeKind::Blob, ".json"),
        ],
    }
}

#[test]
fn tree_nodes_by_kind() {
    assert!(node(GitNodeKind::Blob, "a").is_blob());
    assert!(!node(GitNodeKind::Blob, "a").is_tree());
    assert!(node(GitNodeKind::Tree, "a").is_tree());
    assert!(!node(GitNodeKind::Tree, "a").is_blob());
}

#[test]
fn tree_node_by_path_ignores_case() {
    let found = tree().find_node_by_path("SRC/lib.RS").unwrap();
    assert_eq!(found.path, "src/Lib.rs");
    assert_eq!(found.kind, GitNodeKind::Blob);
    assert_eq!(found.sha, "abc");
    assert_eq!(found.size, Some(1));
    assert_eq!(tree().find_node_by_path("src").unwrap().kind, GitNodeKind::Tree);
    assert!(tree().find_node_by_path("src/").is_none());
    assert!(tree().find_node_by_path("").is_none());
}

#[test]
fn tree_paths_of_directories_and_files() {
    assert_eq!(tree().get_directory_paths(), vec!["src", "docs"]);
    assert_eq!(
        tree().get_file_paths_excluding_json(),
        vec!["src/Lib.rs", "docs/README.md", "json", ".json"]
    );
    let empty = GitTreeRoot { sha: String::new(), url: String::new(), tree: vec![] };
    assert!(empty.get_directory_paths().is_empty());
    assert!(empty.get_file_paths_excluding_json().is_empty());
}

#[test]
fn json_extension_in_any_case() {
    assert!(is_json_extension(&Some(String::from("json"))));
    assert!(is_json_extension(&Some(String::from("JsOn"))));
    assert!(!is_json_extension(&Some(String::from("jsonc"))));
    assert!(!is_json_extension(&Some(String::new())));
    assert!(!is_json_extension(&None));
}

#[test]
fn github_client_takes_a_token() {
    let mut client = GithubClient::new();
    assert!(client.token.is_none());
    client.set_github_token(String::from("SECRET-REDACTED"));
    assert_eq!(client.token.as_deref(), Some("SECRET-REDACTED"));
}

#[test]
fn module_paths_are_encoded_for_the_proxy() {
    assert_eq!(encode_module_path("github.com/Azure/azure-sdk"), "github.com/!azure/azure-sdk");
    assert_eq!(encode_module_path("github.com/BurntSushi/toml"), "github.com/!burnt!sushi/toml");
    assert_eq!(encode_module_path("golang.org/x/text"), "golang.org/x/text");
    assert_eq!(encode_module_path(""), "");
    assert_eq!(encode_module_path("É!"), "É!");
}

#[test]
fn owner_and_repository_of_a_module() {
    let pair = |a: &str, b: &str| Some((a.to_string(), b.to_string()));
    assert_eq!(extract_github_owner_repo("github.com/owner/repo"), pair("owner", "repo"));
    assert_eq!(extract_github_owner_repo("github.com/owner/repo/v2"), pair("owner", "repo"));
    assert_eq!(extract_github_owner_repo("github.com/owner/repo/pkg/sub"), pair("owner", "repo"));
    assert_eq!(extract_github_owner_repo("golang.org/x/text"), None);
    assert_eq!(extract_github_owner_repo("github.com/owner"), None);
    assert_eq!(extract_github_owner_repo("github.com/owner/"), None);
    assert_eq!(extract_github_owner_repo("github.com//repo"), None);
    assert_eq!(extract_github_owner_repo("github.com/"), None);
    assert_eq!(extract_github_owner_repo("github.com"), None);
    assert_eq!(extract_github_owner_repo("github.com/o/r//x"), pair("o", "r"));
    assert_eq!(extract_github_owner_repo(""), None);
}

#[test]
fn module_version_drops_its_v() {
    let version = ModuleVersion { version: String::from("v1.2.3"), time: None };
    assert_eq!(version.raw_version_string(), "1.2.3");
    assert!(!version.deprecated());
    assert_eq!(version.parse_version(), Some(Version::new(1, 2, 3)));
    let version = ModuleVersion { version: String::from("vv0.1.0-v"), time: None };
    assert_eq!(version.raw_version_string(), "0.1.0-v");
}

#[test]
fn package_names_in_normal_form() {
    assert_eq!(normalize_name("Django"), "django");
    assert_eq!(normalize_name("typing_extensions"), "typing-extensions");
    assert_eq!(normalize_name("zope.interface"), "zope-interface");
    assert_eq!(normalize_name("a-_.b"), "a-b");
    assert_eq!(normalize_name("--a--"), "-a-");
    assert_eq!(normalize_name(""), "");
    assert_eq!(normalize_name("É_x"), "É-x");
}

fn file(name: &str, yanked: bool) -> SimpleMetadataFile {
    SimpleMetadataFile { filename: name.to_string(), yanked }
}

#[test]
fn versions_of_the_simple_index() {
    let meta = SimpleMetadata {
        name: String::from("Requests"),
        versions: vec![String::from("1.0"), String::from("2.0"), String::from("3.0"), String::from("4.0")],
        files: vec![
            file("requests-1.0.tar.gz", true),
            file("Requests-1.0-py3-none-any.whl", true),
            file("requests-2.0.tar.gz", true),
            file("requests-2.0-py3-none-any.whl", false),
            file("other-3.0.tar.gz", true),
            file("requests-4.0.tar.gz", false),
        ],
    };
    let versions = meta.versions();
    let seen: Vec<(&str, bool)> = versions.iter().map(|v| (v.version.as_str(), v.yanked)).collect();
    assert_eq!(seen, vec![("1.0", true), ("2.0", false), ("3.0", false), ("4.0", false)]);
    assert_eq!(versions[0].raw_version_string(), "1.0");
    assert!(versions[0].deprecated());
    assert!(!versions[1].deprecated());
}

fn info() -> RegistryMetadataInfo {
    RegistryMetadataInfo {
        name: String::from("requests"),
        version: String::from("2.0"),
        summary: None,
        description: None,
        author: None,
        author_email: None,
        license: None,
        home_page: None,
        project_url: None,
        project_urls: None,
        requires_python: None,
        provides_extra: None,
        yanked: false,
        yanked_reason: None,
    }
}

fn release(yanked: bool) -> RegistryMetadataRelease {
    RegistryMetadataRelease { yanked, yanked_reason: None }
}

#[test]
fn versions_of_the_registry() {
    let meta = RegistryMetadata {
        info: info(),
        releases: vec![
            (String::from("1.0"), vec![release(true), release(true)]),
            (String::from("2.0"), vec![release(true), release(false)]),
            (String::from("3.0"), vec![]),
            (String::from("4.0"), vec![release(false)]),
        ],
    };
    let versions = meta.versions();
    let seen: Vec<(&str, bool)> = versions.iter().map(|v| (v.version.as_str(), v.yanked)).collect();
    assert_eq!(seen, vec![("1.0", true), ("2.0", false), ("3.0", true), ("4.0", false)]);
    assert!(versions[2].deprecated());
    assert_eq!(versions[3].raw_version_string(), "4.0");
}

#[test]
fn realms_and_their_sections() {
    assert_eq!(MetadataRealm::Dev.name(), "dev");
    assert_eq!(MetadataRealm::Server.name(), "server");
    assert_eq!(MetadataRealm::Shared.name(), "shared");
    assert_eq!(MetadataRealm::Dev.section_name(), "dev-dependencies");
    assert_eq!(MetadataRealm::Server.section_name(), "server-dependencies");
    assert_eq!(MetadataRealm::Shared.section_name(), "dependencies");
}

#[test]
fn realm_that_a_dependency_should_move_to() {
    use_realms();
}

fn use_realms() {
    let all = [MetadataRealm::Dev, MetadataRealm::Server, MetadataRealm::Shared];
    for listed in all {
        for found in all {
            let expected = match (found, listed) {
                (MetadataRealm::Server, MetadataRealm::Dev) => Some(MetadataRealm::Server),
                (MetadataRealm::Server, MetadataRealm::Shared) => Some(MetadataRealm::Server),
                (MetadataRealm::Dev, MetadataRealm::Server) => Some(MetadataRealm::Dev),
                (MetadataRealm::Dev, MetadataRealm::Shared) => Some(MetadataRealm::Dev),
                _ => None,
            };
            assert_eq!(listed.get_suggested_realm(found), expected);
        }
    }
}

#[test]
fn caches_keep_for_the_times_of_each_registry() {
    let crates: CratesCache<u8, u8, u8> = CratesCache::new();
    assert_eq!(crates.index_metadatas.fresh_millis(), 60 * 60_000);
    assert_eq!(crates.index_metadatas.retry_millis(), 15 * 60_000);
    assert_eq!(crates.crate_datas.fresh_millis(), 240 * 60_000);
    assert_eq!(crates.crate_datas.retry_millis(), 120 * 60_000);
    assert_eq!(crates.crate_search.fresh_millis(), 480 * 60_000);
    assert_eq!(crates.crate_search.retry_millis(), 240 * 60_000);
    assert_eq!(crates.local_metadatas.fresh_millis(), 5_000);
    assert_eq!(crates.local_metadatas.retry_millis(), 5_000);
    let golang = GolangCache::new();
    assert_eq!(golang.version_lists.fresh_millis(), 60 * 60_000);
    assert_eq!(golang.latest_versions.retry_millis(), 15 * 60_000);
    let pypi = PyPiCache::new();
    assert_eq!(pypi.simple_metadatas.fresh_millis(), 60 * 60_000);
    assert_eq!(pypi.simple_metadatas.retry_millis(), 15 * 60_000);
    assert_eq!(pypi.registry_metadatas.fresh_millis(), 240 * 60_000);
    assert_eq!(pypi.registry_metadatas.retry_millis(), 120 * 60_000);
    let npm: NpmClient<u8> = NpmClient::new();
    assert_eq!(npm.cache.registry_metadatas.fresh_millis(), 60 * 60_000);
    assert_eq!(npm.cache.registry_metadatas.retry_millis(), 15 * 60_000);
}

#[test]
fn clients_start_without_a_token() {
    let clients: Clients<u8, u8, u8, u8> = Clients::new();
    assert!(clients.github.token.is_none());
    assert!(clients.wally.github.token.is_none());
    assert_eq!(clients.pypi.cache.simple_metadatas.fresh_millis(), 3_600_000);
    assert_eq!(clients.crates.cache.local_metadatas.fresh_millis(), 5_000);
    let mut github = GithubClient::new();
    github.set_github_token(String::from("t"));
    assert_eq!(WallyClient::new(github.clone()).github.token.as_deref(), Some("t"));
    assert_eq!(GolangClient::new(github).github.token.as_deref(), Some("t"));
    assert_eq!(PyPiClient::new().cache.registry_metadatas.retry_millis(), 7_200_000);
}

#[test]
fn failures_of_requests() {
    let ok: RequestResult<u8> = Ok(1);
    let err: RequestResult<u8> = Err(RequestError::client(String::from("no such module")));
    assert!(!is_failure(&ok));
    assert!(is_failure(&err));
    assert!(!err.unwrap_err().is_not_found_error());
    assert!(RequestError { message: String::new(), not_found: true }.is_not_found_error());
}

fn lines(text: &str) -> Vec<String> {
    text.lines().map(|l| l.to_string()).collect()
}

#[test]
fn manifest_of_a_crate_beside_the_manifest() {
    let manifest = "[package]\nname = \"demo\"\n  version = \"1.2.3\"  \nedition = \"2021\"\n\n[dependencies]\nversion = \"9.9.9\"\nserde = \"1\"\n\n[features]\ndefault = [\"std\"]\nstd = []\n# comment\n  full=[\"std\"]\n";
    let meta = parse_local_manifest(&lines(manifest));
    assert_eq!(meta.version, Some(Version::new(1, 2, 3)));
    assert_eq!(meta.features, vec!["default", "std", "full"]);
}

#[test]
fn manifest_without_a_valid_version() {
    let meta = parse_local_manifest(&lines("[package]\nversion = \"1.0.0\"\nversion.workspace = true\n"));
    assert_eq!(meta.version, Some(Version::new(1, 0, 0)));
    let meta = parse_local_manifest(&lines("[package]\nversion = \"1.0.0\"\nversion = \"one\"\n"));
    assert_eq!(meta.version, None);
    let meta = parse_local_manifest(&lines("[package]\nversion = \" 1.0.0\"\n"));
    assert_eq!(meta.version, None);
    let meta = parse_local_manifest(&lines("version = \"1.0.0\"\n[features]\n[package]\n"));
    assert_eq!(meta.version, None);
    assert!(meta.features.is_empty());
    let meta = parse_local_manifest(&lines(" [package] \nversion=\"\"2.0.0\"\"\n[ package ]\nversion = \"3.0.0\"\n"));
    assert_eq!(meta.version, Some(Version::new(2, 0, 0)));
    let meta = parse_local_manifest(&vec![]);
    assert_eq!(meta.version, None);
    assert!(meta.features.is_empty());
}

#[test]
fn files_are_left_out_by_the_extension_that_std_finds() {
    let paths = [
        "a.json", "a.JSON", "b.rs", "json", ".json", "src/.json", "x.json/", "x.json/.", "x.json//",
        "a.b/c", "dir.json/file", "a/b.", "..json", "a/..json", "", "a", "a.tar.gz", "x/.hidden.json",
        "x.JsOn", "x.jsonc", "x.json/..", "/", ".",
    ];
    let root = GitTreeRoot {
        sha: String::new(),
        url: String::new(),
        tree: paths.iter().map(|p| node(GitNodeKind::Blob, p)).collect(),
    };
    let kept = root.get_file_paths_excluding_json();
    let expected: Vec<&str> = paths
        .iter()
        .copied()
        .filter(|p| {
            !std::path::Path::new(p).extension().is_some_and(|e| e.eq_ignore_ascii_case("json"))
        })
        .collect();
    assert_eq!(kept, expected);
    // A `/`, or a `/.`, at the end of a path is no part of the name of its file.
    for path in ["x.json/", "x.json/.", "a.json", "a.JSON", "..json", "x/.hidden.json"] {
        assert!(!kept.iter().any(|p| p == path), "{:?}", path);
    }
    for path in ["json", ".json", "src/.json", "dir.json/file", "x.json/..", "x.jsonc", "a/b."] {
        assert!(kept.iter().any(|p| p == path), "{:?}", path);
    }
    // What the tree says of blobs and trees decides first.
    let mixed = GitTreeRoot {
        sha: String::new(),
        url: String::new(),
        tree: vec![
            node(GitNodeKind::Blob, "a.JSON"),
            node(GitNodeKind::Blob, "b.rs"),
            node(GitNodeKind::Blob, "json"),
            node(GitNodeKind::Tree, "src"),
        ],
    };
    assert_eq!(mixed.get_file_paths_excluding_json(), vec!["b.rs", "json"]);
}

fn pairs(names: &[&str]) -> Vec<(String, String)> {
    names.iter().map(|n| (n.to_string(), String::from("x"))).collect()
}

#[test]
fn lists_that_stand_for_maps() {
    assert!(distinct_names(&pairs(&[])));
    assert!(distinct_names(&pairs(&["a"])));
    assert!(distinct_names(&pairs(&["a", "b", "A"])));
    assert!(!distinct_names(&pairs(&["a", "b", "a"])));
    assert!(!distinct_names(&pairs(&["a", "a"])));
    let mut meta = RegistryMetadata {
        info: info(),
        releases: vec![(String::from("1.0"), vec![]), (String::from("2.0"), vec![])],
    };
    assert!(meta.is_well_formed());
    meta.info.project_urls = Some(pairs(&["Home", "Docs", "Home"]));
    assert!(!meta.info.is_well_formed());
    assert!(!meta.is_well_formed());
    meta.info.project_urls = Some(pairs(&["Home", "Docs"]));
    meta.releases.push((String::from("1.0"), vec![]));
    assert!(meta.info.is_well_formed());
    assert!(!meta.is_well_formed());
    let dependencies = MetadataDependencies {
        shared: pairs(&["a", "b"]),
        server: pairs(&["a"]),
        dev: pairs(&["c", "c"]),
    };
    assert!(!dependencies.is_well_formed());
    assert!(is_absent(&None::<u8>));
    assert!(!is_absent(&Some(1)));
}

#[test]
fn path_of_a_crate_in_the_index() {
    assert_eq!(index_path("a"), "1/a");
    assert_eq!(index_path("Ab"), "2/ab");
    assert_eq!(index_path("Syn"), "3/s/syn");
    assert_eq!(index_path("serde"), "se/rd/serde");
    assert_eq!(index_path("Tokio-Util"), "to/ki/tokio-util");
    assert_eq!(index_path("rand"), "ra/nd/rand");
    assert_eq!(index_path(""), "");
}

#[test]
fn wally_release_offers_its_version() {
    let release = |version: &str| Metadata {
        package: MetadataPackage {
            name: String::from("scope/name"),
            version: version.to_string(),
            registry: String::from("https://github.com/UpliftGames/wally-index"),
            realm: MetadataRealm::Shared,
            description: None,
            license: None,
            authors: Vec::new(),
            included: Vec::new(),
            excluded: Vec::new(),
            private: false,
        },
        dependencies: MetadataDependencies { shared: Vec::new(), server: Vec::new(), dev: Vec::new() },
    };
    assert_eq!(release("1.2.3").raw_version_string(), "1.2.3");
    assert!(!release("1.2.3").deprecated());
    let offers = deputy::version::extract_completion_versions(
        "1.",
        vec![release("1.0.0"), release("2.0.0"), release("1.10.0")],
    );
    let raw: Vec<&str> = offers.iter().map(|o| o.item_version_raw.as_str()).collect();
    assert_eq!(raw, vec!["1.10.0", "1.0.0"]);
}
