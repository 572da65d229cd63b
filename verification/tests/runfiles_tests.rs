use py::paths::AbsPath;
use py::runfiles::{
    has_runfiles_component, parse_manifest_content, parse_repo_mapping_content,
    runfiles_ancestor, runfiles_sibling, Runfiles, RunfilesError,
};

fn abs(segs: &[&str]) -> AbsPath {
    AbsPath::new(segs.iter().map(|s| s.to_string()).collect()).unwrap()
}

#[test]
fn test_manifest_based_can_read_data_from_runfiles() {
    let mut path_mapping = Vec::new();
    path_mapping.push(("a/b".to_string(), "c/d".to_string()));
    let r = Runfiles::new_manifest_based(path_mapping, Vec::new());

    assert_eq!(r.rlocation("a/b"), Some("c/d".to_string()));
}

#[test]
fn test_manifest_based_missing_file() {
    let mut path_mapping = Vec::new();
    path_mapping.push(("a/b".to_string(), "c/d".to_string()));
    let r = Runfiles::new_manifest_based(path_mapping, Vec::new());

    assert_eq!(r.rlocation("does/not/exist"), None);
}

#[test]
fn absolute_paths_pass_through() {
    let r = Runfiles::new_manifest_based(Vec::new(), Vec::new());
    assert_eq!(r.rlocation("/etc/hosts"), Some("/etc/hosts".to_string()));
}

#[test]
fn directory_mode_joins_the_root() {
    let r = Runfiles::new_directory_based("/srv/run".to_string(), Vec::new());
    assert_eq!(
        r.rlocation("repo/data.txt"),
        Some("/srv/run/repo/data.txt".to_string())
    );
}

#[test]
fn test_parse_repo_mapping() {
    let content = "\
,rules_rust,rules_rust
bazel_tools,__main__,rules_rust
local_config_cc,rules_rust,rules_rust
local_config_sh,rules_rust,rules_rust
local_config_xcode,rules_rust,rules_rust
platforms,rules_rust,rules_rust
rules_rust_tinyjson,rules_rust,rules_rust
rust_darwin_aarch64__aarch64-apple-darwin__stable_tools,rules_rust,rules_rust
";
    let mapping = parse_repo_mapping_content(content).unwrap();
    assert_eq!(mapping.len(), 8);
    assert!(mapping.contains(&(
        "".to_string(),
        "rules_rust".to_string(),
        "rules_rust".to_string()
    )));
    assert!(mapping.contains(&(
        "bazel_tools".to_string(),
        "__main__".to_string(),
        "rules_rust".to_string()
    )));
    assert!(mapping.contains(&(
        "rust_darwin_aarch64__aarch64-apple-darwin__stable_tools".to_string(),
        "rules_rust".to_string(),
        "rules_rust".to_string()
    )));
}

#[test]
fn test_parse_repo_mapping_invalid_file() {
    assert_eq!(
        parse_repo_mapping_content("invalid"),
        Err(RunfilesError::RepoMappingInvalidFormat),
    );
    // One short line anywhere poisons the whole file.
    assert_eq!(
        parse_repo_mapping_content("a,b,c\nbad\nx,y,z"),
        Err(RunfilesError::RepoMappingInvalidFormat),
    );
}

#[test]
fn repo_mapping_third_field_keeps_commas() {
    let mapping = parse_repo_mapping_content("a,b,c,with,commas").unwrap();
    assert_eq!(
        mapping,
        vec![("a".to_string(), "b".to_string(), "c,with,commas".to_string())]
    );
}

#[test]
fn rlocation_from_rewrites_through_the_mapping() {
    let mapping = vec![(
        "".to_string(),
        "rules_rust".to_string(),
        "rules_rust~1".to_string(),
    )];
    let r = Runfiles::new_directory_based("/run".to_string(), mapping);
    assert_eq!(
        r.rlocation_from("rules_rust/data.txt", ""),
        Some("/run/rules_rust~1/data.txt".to_string())
    );
    // An unmapped alias falls back to the path as given.
    assert_eq!(
        r.rlocation_from("other/data.txt", ""),
        Some("/run/other/data.txt".to_string())
    );
    // An alias with no rest resolves the mapped directory alone.
    assert_eq!(
        r.rlocation_from("rules_rust", ""),
        Some("/run/rules_rust~1".to_string())
    );
}

#[test]
fn manifest_content_is_parsed_leniently() {
    let entries = parse_manifest_content("a/b /real/a/b\nmalformed-line\nc /real/c\n");
    assert_eq!(
        entries,
        vec![
            ("a/b".to_string(), "/real/a/b".to_string()),
            ("c".to_string(), "/real/c".to_string()),
        ]
    );
}

#[test]
fn manifest_real_path_keeps_later_spaces() {
    let entries = parse_manifest_content("a b c");
    assert_eq!(entries, vec![("a".to_string(), "b c".to_string())]);
}

#[test]
fn sibling_runfiles_candidate() {
    let p = abs(&["work", "out", "tool"]);
    let sib = runfiles_sibling(&p).unwrap();
    assert_eq!(sib.segs, vec!["work", "out", "tool.runfiles"]);
}

#[test]
fn deepest_runfiles_ancestor_wins() {
    let p = abs(&["a.runfiles", "b", "c.runfiles", "d", "e"]);
    let anc = runfiles_ancestor(&p).unwrap();
    assert_eq!(anc.segs, vec!["a.runfiles", "b", "c.runfiles"]);
    assert!(has_runfiles_component(&p));
    let q = abs(&["plain", "tree"]);
    assert!(runfiles_ancestor(&q).is_none());
    assert!(!has_runfiles_component(&q));
}
