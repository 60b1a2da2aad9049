//! What GitHub tells of a repository: its tree, its releases and how it describes itself.
use crate::text::{chars_of, eq_ignore_ascii_case, equal_ignoring_ascii_case, texts};
use vstd::prelude::*;

verus! {

/// What a repository says of itself.
#[derive(Debug, Clone)]
pub struct RepositoryMetrics {
    pub description: Option<String>,
    pub documentation: Option<String>,
}

/// A release of a repository.
#[derive(Debug, Clone)]
pub struct RepositoryRelease {
    pub tag_name: String,
    pub name: Option<String>,
    pub body: Option<String>,
    pub draft: bool,
    pub prerelease: bool,
    pub created_at: Option<String>,
    pub published_at: Option<String>,
    pub assets: Vec<RepositoryReleaseAsset>,
}

/// A file that belongs to a release.
#[derive(Debug, Clone)]
pub struct RepositoryReleaseAsset {
    pub name: String,
    pub label: Option<String>,
    pub content_type: String,
    pub size: i64,
    pub download_count: i64,
    pub created_at: Option<String>,
    pub updated_at: Option<String>,
}

/// Whether a node of a tree is a file or a directory.
#[derive(Debug, Clone, Copy, PartialEq, Eq)]
pub enum GitNodeKind {
    Blob,
    Tree,
}

/// A node of a tree.
#[derive(Debug, Clone)]
pub struct GitTreeNode {
    pub sha: String,
    pub url: String,
    pub kind: GitNodeKind,
    pub size: Option<u64>,
    pub path: String,
}

/// What a [`GitTreeNode`] stands for.
pub struct GitTreeNodeView {
    pub sha: Seq<char>,
    pub url: Seq<char>,
    pub kind: GitNodeKind,
    pub size: Option<u64>,
    pub path: Seq<char>,
}

impl View for GitTreeNode {
    type V = GitTreeNodeView;

    open spec fn view(&self) -> GitTreeNodeView {
        GitTreeNodeView {
            sha: self.sha@,
            url: self.url@,
            kind: self.kind,
            size: self.size,
            path: self.path@,
        }
    }
}

impl GitTreeNode {
    /// Whether the node is a file.
    pub fn is_blob(&self) -> (b: bool)
        ensures
            b == (self.kind == GitNodeKind::Blob),
    {
        match self.kind {
            GitNodeKind::Blob => true,
            GitNodeKind::Tree => false,
        }
    }

    /// Whether the node is a directory.
    pub fn is_tree(&self) -> (b: bool)
        ensures
            b == (self.kind == GitNodeKind::Tree),
    {
        match self.kind {
            GitNodeKind::Tree => true,
            GitNodeKind::Blob => false,
        }
    }

    /// A node equal to `self`.
    pub fn duplicate(&self) -> (r: GitTreeNode)
        ensures
            r@ == self@,
    {
        GitTreeNode {
            sha: self.sha.clone(),
            url: self.url.clone(),
            kind: self.kind,
            size: self.size,
            path: self.path.clone(),
        }
    }
}

/// The tree of a repository, every node with its whole path.
#[derive(Debug, Clone)]
pub struct GitTreeRoot {
    pub sha: String,
    pub url: String,
    pub tree: Vec<GitTreeNode>,
}

/// The paths of the first `n` nodes of `tree` that are of the kind `kind` and that `skip`
/// does not mark, in the order of the tree.
pub open spec fn paths_of_kind(
    tree: Seq<GitTreeNode>,
    kind: GitNodeKind,
    skip: Seq<bool>,
    n: int,
) -> Seq<Seq<char>>
    decreases n,
{
    if n <= 0 {
        Seq::empty()
    } else if tree[n - 1].kind == kind && !skip[n - 1] {
        paths_of_kind(tree, kind, skip, n - 1).push(tree[n - 1].path@)
    } else {
        paths_of_kind(tree, kind, skip, n - 1)
    }
}

/// What `std::path::Path::extension` finds in the path `path`: the extension of the file
/// that the path names, where it has one.
pub uninterp spec fn path_extension(path: Seq<char>) -> Option<Seq<char>>;

/// Whether `extension` is that of JSON, whatever the case of its letters.
pub open spec fn is_json(extension: Option<Seq<char>>) -> bool {
    extension matches Some(e) && equal_ignoring_ascii_case(e, seq!['j', 's', 'o', 'n'])
}

/// Whether `path` names a file whose extension is that of JSON, whatever the case of its
/// letters.
pub open spec fn is_json_path(path: Seq<char>) -> bool {
    is_json(path_extension(path))
}

/// For each node of a tree, whether its path names a file of JSON.
pub open spec fn json_marks(tree: Seq<GitTreeNode>) -> Seq<bool> {
    Seq::new(tree.len(), |i: int| is_json_path(tree[i].path@))
}

/// `std::path::Path::extension`, on the path that `path` writes out, with what it finds
/// handed back as text. The contract names what comes back and says no more of it: which
/// part of a path is the extension of its file is left to std.
#[verifier::external_body]
fn file_extension(path: &str) -> (r: Option<String>)
    ensures
        match r {
            Some(e) => path_extension(path@) == Some(e@),
            None => path_extension(path@) is None,
        },
{
    std::path::Path::new(path).extension().and_then(|e| e.to_str()).map(str::to_owned)
}

/// Whether a file extension is that of JSON, whatever the case of its letters.
pub fn is_json_extension(extension: &Option<String>) -> (b: bool)
    ensures
        b == is_json(
            match extension {
                Some(e) => Some(e@),
                None => None,
            },
        ),
{
    match extension {
        Some(e) => {
            let json = vec!['j', 's', 'o', 'n'];
            assert(json@ =~= seq!['j', 's', 'o', 'n']);
            eq_ignore_ascii_case(&chars_of(e.as_str()), &json)
        },
        None => false,
    }
}

impl GitTreeRoot {
    /// The first node whose path is `path`, whatever the case of ASCII letters.
    pub fn find_node_by_path(&self, path: &str) -> (r: Option<GitTreeNode>)
        ensures
            match r {
                Some(node) => exists|i: int|
                    0 <= i < self.tree@.len() && node@ == (#[trigger] self.tree@[i])@
                        && equal_ignoring_ascii_case(node@.path, path@) && forall|k: int|
                        0 <= k < i ==> !equal_ignoring_ascii_case(
                            (#[trigger] self.tree@[k])@.path,
                            path@,
                        ),
                None => forall|k: int|
                    0 <= k < self.tree@.len() ==> !equal_ignoring_ascii_case(
                        (#[trigger] self.tree@[k])@.path,
                        path@,
                    ),
            },
    {
        let wanted = chars_of(path);
        let mut i: usize = 0;
        while i < self.tree.len()
            invariant
                i <= self.tree.len(),
                wanted@ == path@,
                forall|k: int|
                    0 <= k < i ==> !equal_ignoring_ascii_case(
                        (#[trigger] self.tree@[k])@.path,
                        path@,
                    ),
            decreases self.tree.len() - i,
        {
            let node = &self.tree[i];
            if eq_ignore_ascii_case(&chars_of(node.path.as_str()), &wanted) {
                return Some(node.duplicate());
            }
            i = i + 1;
        }
        None
    }

    /// The paths of the directories, in the order of the tree.
    pub fn get_directory_paths(&self) -> (r: Vec<String>)
        ensures
            texts(r@) == paths_of_kind(
                self.tree@,
                GitNodeKind::Tree,
                Seq::new(self.tree@.len(), |i: int| false),
                self.tree@.len() as int,
            ),
    {
        let ghost skip = Seq::new(self.tree@.len(), |i: int| false);
        let mut r: Vec<String> = Vec::new();
        let mut i: usize = 0;
        while i < self.tree.len()
            invariant
                i <= self.tree.len(),
                skip == Seq::new(self.tree@.len(), |i: int| false),
                texts(r@) == paths_of_kind(self.tree@, GitNodeKind::Tree, skip, i as int),
            decreases self.tree.len() - i,
        {
            let node = &self.tree[i];
            let ghost before = texts(r@);
            if node.is_tree() {
                r.push(node.path.clone());
                assert(texts(r@) =~= before.push(node.path@));
            }
            i = i + 1;
        }
        r
    }

    /// The paths of the files whose extension is not that of JSON, in the order of the tree.
    pub fn get_file_paths_excluding_json(&self) -> (r: Vec<String>)
        ensures
            texts(r@) == paths_of_kind(
                self.tree@,
                GitNodeKind::Blob,
                json_marks(self.tree@),
                self.tree@.len() as int,
            ),
    {
        let ghost marks = json_marks(self.tree@);
        let mut r: Vec<String> = Vec::new();
        let mut i: usize = 0;
        while i < self.tree.len()
            invariant
                i <= self.tree.len(),
                marks == json_marks(self.tree@),
                texts(r@) == paths_of_kind(self.tree@, GitNodeKind::Blob, marks, i as int),
            decreases self.tree.len() - i,
        {
            let node = &self.tree[i];
            let ghost before = texts(r@);
            let is_json = is_json_extension(&file_extension(node.path.as_str()));
            assert(is_json == marks[i as int]);
            if node.is_blob() && !is_json {
                r.push(node.path.clone());
                assert(texts(r@) =~= before.push(node.path@));
            }
            i = i + 1;
        }
        r
    }
}

/// The state of the client of GitHub: the token that it shows, if it has one.
#[derive(Debug, Clone)]
pub struct GithubClient {
    pub token: Option<String>,
}

impl GithubClient {
    /// A client without a token.
    pub fn new() -> (r: Self)
        ensures
            r.token is None,
    {
        GithubClient { token: None }
    }

    /// Gives the client the token to show from now on.
    pub fn set_github_token(&mut self, token: String)
        ensures
            final(self).token == Some(token),
    {
        self.token = Some(token);
    }
}

} // verus!
