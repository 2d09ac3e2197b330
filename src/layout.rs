//! Where the sources of a package stand: the entry file named by its manifest,
//! and the path that leads from the repository root to the manifest's directory.
use vstd::prelude::*;

verus! {

/// What the checker reads from a package manifest.
#[derive(Debug)]
pub struct ManifestInfo {
    /// The `path` of the `[lib]` section, if the manifest sets one.
    pub lib_path: Option<String>,
    /// The manifest declares a workspace.
    pub is_workspace: bool,
}

/// Why a package layout is refused.
#[derive(Debug)]
pub enum LayoutError {
    /// The manifest does not parse; holds the parser's message.
    Manifest(String),
    /// Workspace manifests are not supported.
    Workspace,
    /// The repository root lies below the manifest's directory.
    RepositoryBelowManifest,
    /// A depth exceeds the number of segments of the directory.
    DepthOutOfRange,
}

/// What cargo_manifest reads from a manifest's text: its `[lib] path` and whether
/// it declares a workspace; `None` where the text does not parse.
pub uninterp spec fn manifest_reading(contents: Seq<char>) -> Option<(Option<Seq<char>>, bool)>;

/// The text of an optional string.
pub open spec fn opt_text(o: Option<String>) -> Option<Seq<char>> {
    match o {
        Some(s) => Some(s@),
        None => None,
    }
}

/// Relies on cargo_manifest's `Manifest::from_str`: parses a manifest's text and
/// hands back its `[lib] path` and whether it declares a workspace, or the
/// parser's error message. The outcome depends on the text alone.
#[verifier::external_body]
fn parse_manifest(contents: &str) -> (r: Result<(Option<String>, bool), String>)
    ensures
        match r {
            Ok((lib_path, is_workspace)) => manifest_reading(contents@) == Some(
                (opt_text(lib_path), is_workspace),
            ),
            Err(_) => manifest_reading(contents@) is None,
        },
{
    match <cargo_manifest::Manifest as std::str::FromStr>::from_str(contents) {
        Ok(m) => Ok((m.lib.and_then(|l| l.path), m.workspace.is_some())),
        Err(e) => Err(e.to_string()),
    }
}

/// Reads a manifest's text into what the checker needs of it.
pub fn get_manifest_data_from_contents(contents: &str) -> (r: Result<ManifestInfo, LayoutError>)
    ensures
        r is Ok <==> manifest_reading(contents@) is Some,
        r matches Ok(m) ==> manifest_reading(contents@) == Some(
            (opt_text(m.lib_path), m.is_workspace),
        ),
        r is Err ==> r->Err_0 is Manifest,
{
    match parse_manifest(contents) {
        Ok((lib_path, is_workspace)) => Ok(ManifestInfo { lib_path, is_workspace }),
        Err(message) => Err(LayoutError::Manifest(message)),
    }
}

/// The library entry file that a manifest names: its `[lib] path`, or
/// `src/lib.rs` where it sets none.
pub open spec fn entry_path(m: ManifestInfo) -> Seq<char> {
    match m.lib_path {
        Some(p) => p@,
        None => "src/lib.rs"@,
    }
}

/// The path of the library entry file, relative to the manifest's directory.
pub fn lib_file_path(manifest: &ManifestInfo) -> (r: String)
    ensures
        r@ == entry_path(*manifest),
{
    match &manifest.lib_path {
        Some(p) => p.clone(),
        None => String::from_str("src/lib.rs"),
    }
}

/// The entry file of a package that the checker supports: a workspace manifest
/// is refused.
pub fn supported_entry(manifest: &ManifestInfo) -> (r: Result<String, LayoutError>)
    ensures
        manifest.is_workspace ==> r matches Err(LayoutError::Workspace),
        !manifest.is_workspace ==> (r matches Ok(p) && p@ == entry_path(*manifest)),
{
    if manifest.is_workspace {
        Err(LayoutError::Workspace)
    } else {
        Ok(lib_file_path(manifest))
    }
}

/// The segments that lead from the repository root to the manifest's directory,
/// given the segments of the working directory, the number of levels above it
/// where the repository root stands and the number where the manifest stands;
/// `None` where both stand in the same directory.
pub fn get_diff_between_repo_dir_and_manifest_file(
    dir: &Vec<String>,
    repo_dep: usize,
    manifest_dep: usize,
) -> (r: Option<Vec<String>>)
    requires
        manifest_dep <= repo_dep <= dir@.len(),
    ensures
        repo_dep == manifest_dep ==> r is None,
        repo_dep != manifest_dep ==> (r matches Some(p) && p@ == dir@.subrange(
            dir@.len() - repo_dep,
            dir@.len() - manifest_dep,
        )),
{
    if repo_dep == manifest_dep {
        return None;
    }
    let start = dir.len() - repo_dep;
    let end = dir.len() - manifest_dep;
    let mut path: Vec<String> = Vec::new();
    let mut i: usize = start;
    while i < end
        invariant
            start <= i <= end,
            end <= dir@.len(),
            path@ == dir@.subrange(start as int, i as int),
        decreases end - i,
    {
        path.push(dir[i].clone());
        proof {
            assert(path@ =~= dir@.subrange(start as int, i as int + 1));
        }
        i += 1;
    }
    Some(path)
}

/// The segments from the repository root to the manifest's directory, after
/// checking the layout: the repository root may not lie below the manifest, and
/// neither depth may exceed the directory's segments.
pub fn snapshot_prefix(dir: &Vec<String>, repo_dep: usize, manifest_dep: usize) -> (r: Result<
    Option<Vec<String>>,
    LayoutError,
>)
    ensures
        repo_dep < manifest_dep ==> r matches Err(LayoutError::RepositoryBelowManifest),
        manifest_dep <= repo_dep && repo_dep > dir@.len() ==> r matches Err(
            LayoutError::DepthOutOfRange,
        ),
        manifest_dep == repo_dep && repo_dep <= dir@.len() ==> r matches Ok(None),
        manifest_dep < repo_dep <= dir@.len() ==> (r matches Ok(Some(p)) && p@ == dir@.subrange(
            dir@.len() - repo_dep,
            dir@.len() - manifest_dep,
        )),
{
    if repo_dep < manifest_dep {
        Err(LayoutError::RepositoryBelowManifest)
    } else if repo_dep > dir.len() {
        Err(LayoutError::DepthOutOfRange)
    } else {
        Ok(get_diff_between_repo_dir_and_manifest_file(dir, repo_dep, manifest_dep))
    }
}

} // verus!
