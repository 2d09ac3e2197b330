use api_compat::layout::{
    get_diff_between_repo_dir_and_manifest_file, get_manifest_data_from_contents, lib_file_path,
    snapshot_prefix, supported_entry, LayoutError, ManifestInfo,
};
use std::path::Path;

fn segments(p: &str) -> Vec<String> {
    Path::new(p).iter().map(|s| s.to_string_lossy().into_owned()).collect()
}

#[test]
fn check_manifest_to_metadata() {
    assert_eq!(
        Some(segments("hoge/fuga")),
        get_diff_between_repo_dir_and_manifest_file(&segments("hoge2/hoge/fuga/fuga2"), 3, 1)
    )
}

#[test]
fn diff_is_none_when_repository_and_manifest_share_a_directory() {
    assert_eq!(None, get_diff_between_repo_dir_and_manifest_file(&segments("a/b/c"), 2, 2));
}

#[test]
fn snapshot_prefix_rejects_repository_below_manifest() {
    assert!(matches!(
        snapshot_prefix(&segments("a/b/c"), 0, 1),
        Err(LayoutError::RepositoryBelowManifest)
    ));
}

#[test]
fn snapshot_prefix_rejects_depth_beyond_directory() {
    assert!(matches!(snapshot_prefix(&segments("a/b"), 3, 1), Err(LayoutError::DepthOutOfRange)));
}

#[test]
fn snapshot_prefix_gives_the_path_between() {
    assert_eq!(snapshot_prefix(&segments("x/y/z"), 2, 0).unwrap(), Some(segments("y/z")));
    assert_eq!(snapshot_prefix(&segments("x/y/z"), 1, 1).unwrap(), None);
}

#[test]
fn lib_file_path_defaults_to_src_lib() {
    let m = ManifestInfo { lib_path: None, is_workspace: false };
    assert_eq!(lib_file_path(&m), "src/lib.rs");
    let m = ManifestInfo { lib_path: Some("lib/entry.rs".to_string()), is_workspace: false };
    assert_eq!(lib_file_path(&m), "lib/entry.rs");
}

#[test]
fn manifest_with_lib_path_is_read() {
    let text = "[package]\nname = \"demo\"\nversion = \"0.1.0\"\n\n[lib]\npath = \"src/entry.rs\"\n";
    let m = get_manifest_data_from_contents(text).unwrap();
    assert_eq!(m.lib_path.as_deref(), Some("src/entry.rs"));
    assert!(!m.is_workspace);
    assert_eq!(supported_entry(&m).unwrap(), "src/entry.rs");
}

#[test]
fn manifest_without_lib_section_uses_default_entry() {
    let text = "[package]\nname = \"demo\"\nversion = \"0.1.0\"\n";
    let m = get_manifest_data_from_contents(text).unwrap();
    assert_eq!(m.lib_path, None);
    assert_eq!(supported_entry(&m).unwrap(), "src/lib.rs");
}

#[test]
fn workspace_manifest_is_refused() {
    let text = "[workspace]\nmembers = [\"a\", \"b\"]\n";
    let m = get_manifest_data_from_contents(text).unwrap();
    assert!(m.is_workspace);
    assert!(matches!(supported_entry(&m), Err(LayoutError::Workspace)));
}

#[test]
fn malformed_manifest_is_an_error() {
    assert!(matches!(
        get_manifest_data_from_contents("[package\nname = "),
        Err(LayoutError::Manifest(_))
    ));
}

#[test]
fn manifest_without_lib_path_and_without_workspace() {
    let text = "[package]\nname = \"demo\"\nversion = \"0.1.0\"\n\n[lib]\nname = \"demo\"\n";
    let m = get_manifest_data_from_contents(text).unwrap();
    assert_eq!(m.lib_path, None);
    assert!(!m.is_workspace);
}
