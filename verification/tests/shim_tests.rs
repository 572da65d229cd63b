use py::paths::AbsPath;
use py::pth::{
    classify_pth_line, plan_symlink, PthLineAction, SymlinkAction,
    SymlinkCollisionResolutionStrategy, VenvCollision,
};
use py::shim::{
    compare_versions, parse_venv_cfg, parse_version_info, path_candidates,
    select_interpreters, updated_path_env, venv_root_candidate, InterpreterConfig, ShimError,
};

fn abs(segs: &[&str]) -> AbsPath {
    AbsPath::new(segs.iter().map(|s| s.to_string()).collect()).unwrap()
}

#[test]
fn cfg_with_runfiles_keys_is_a_runfiles_interpreter() {
    let content = "\
home = /nonsense\n\
version_info = 3.11.2\n\
aspect-runfiles-interpreter = pytool/bin/python3\n\
aspect-runfiles-repo = pytool\n\
aspect-include-user-site-packages = false\n";
    let cfg = parse_venv_cfg("/v", "/v/pyvenv.cfg", content).unwrap();
    assert_eq!(cfg.root, "/v");
    assert_eq!(cfg.version_info, "3.11.2");
    assert!(!cfg.user_site);
    assert_eq!(
        cfg.interpreter,
        InterpreterConfig::Runfiles {
            rpath: "pytool/bin/python3".to_string(),
            repo: "pytool".to_string(),
        }
    );
}

#[test]
fn cfg_without_runfiles_keys_is_external() {
    let content = "version_info = 3.11.2\naspect-include-user-site-packages = true\n";
    let cfg = parse_venv_cfg("/v", "/v/pyvenv.cfg", content).unwrap();
    assert!(cfg.user_site);
    assert_eq!(
        cfg.interpreter,
        InterpreterConfig::External { version: "3.11".to_string() }
    );
}

#[test]
fn cfg_errors_name_the_missing_piece() {
    assert_eq!(
        parse_venv_cfg("/v", "/v/pyvenv.cfg", "home = /x\n").unwrap_err(),
        ShimError::MissingVersionInfo
    );
    assert_eq!(
        parse_venv_cfg(
            "/v",
            "/v/pyvenv.cfg",
            "version_info = 3.11\naspect-runfiles-interpreter = x\naspect-include-user-site-packages = true\n",
        )
        .unwrap_err(),
        ShimError::IncompleteRunfilesConfig
    );
    assert_eq!(
        parse_venv_cfg("/v", "/v/pyvenv.cfg", "version_info = 3\naspect-include-user-site-packages = true\n")
            .unwrap_err(),
        ShimError::InvalidVersionInfo
    );
    assert_eq!(
        parse_venv_cfg("/v", "/v/pyvenv.cfg", "version_info = 3.11\n").unwrap_err(),
        ShimError::MissingUserSiteFlag
    );
    assert_eq!(
        parse_venv_cfg(
            "/v",
            "/v/pyvenv.cfg",
            "version_info = 3.11\naspect-include-user-site-packages = maybe\n",
        )
        .unwrap_err(),
        ShimError::MissingUserSiteFlag
    );
}

#[test]
fn version_prefix_takes_major_minor() {
    assert_eq!(parse_version_info("3.11.2"), Some("3.11".to_string()));
    assert_eq!(parse_version_info("3.11"), Some("3.11".to_string()));
    assert_eq!(parse_version_info("3"), None);
}

#[test]
fn versioned_names_are_recognized() {
    assert!(compare_versions("3.11", "python3.11"));
    assert!(compare_versions("3.11", "some-python3.11"));
    assert!(!compare_versions("3.11", "python3.1"));
}

#[test]
fn path_scan_builds_and_filters_candidates() {
    let cands = path_candidates("/usr/bin:/v/bin::/opt/bin", "3.11");
    assert_eq!(
        cands,
        vec![
            ("/usr/bin".to_string(), "/usr/bin/python3.11".to_string()),
            ("/v/bin".to_string(), "/v/bin/python3.11".to_string()),
            ("".to_string(), "python3.11".to_string()),
            ("/opt/bin".to_string(), "/opt/bin/python3.11".to_string()),
        ]
    );
    // Pretend everything but the empty entry exists; the venv's own bin
    // is excluded, PATH order is kept.
    let existing: Vec<(String, String)> = cands
        .into_iter()
        .filter(|c| !c.0.is_empty())
        .collect();
    let picked = select_interpreters(&existing, "/v/bin").unwrap();
    assert_eq!(
        picked,
        vec![
            "/usr/bin/python3.11".to_string(),
            "/opt/bin/python3.11".to_string()
        ]
    );
    // With only the venv's own interpreter present, the lookup misses.
    let only_own = vec![("/v/bin".to_string(), "/v/bin/python3.11".to_string())];
    assert!(select_interpreters(&only_own, "/v/bin").is_none());
}

#[test]
fn path_env_gets_the_venv_bin_first_once() {
    assert_eq!(
        updated_path_env("/usr/bin::/opt/bin:", "/v/bin"),
        Some("/v/bin:/usr/bin:/opt/bin".to_string())
    );
    // Already present: nothing to change.
    assert_eq!(updated_path_env("/usr/bin:/v/bin", "/v/bin"), None);
    assert_eq!(updated_path_env("", "/v/bin"), Some("/v/bin".to_string()));
}

#[test]
fn venv_root_sits_two_levels_up() {
    let exe = abs(&["run", "v", "bin", "python3"]);
    let (root, cfg) = venv_root_candidate(&exe).unwrap();
    assert_eq!(root.segs, vec!["run", "v"]);
    assert_eq!(cfg.segs, vec!["run", "v", "pyvenv.cfg"]);
    assert!(venv_root_candidate(&abs(&["python3"])).is_none());
}

#[test]
fn pth_lines_classify_site_trees() {
    let prefix = Some("pre".to_string());
    match classify_pth_line(" pkg/site-packages \n", &prefix) {
        PthLineAction::Materialize(e) => assert_eq!(e, "pre/pkg/site-packages"),
        PthLineAction::Emit(e) => panic!("should materialize, emitted {}", e),
    }
    match classify_pth_line("pkg/src", &prefix) {
        PthLineAction::Emit(e) => assert_eq!(e, "pre/pkg/src"),
        PthLineAction::Materialize(e) => panic!("should emit, materialized {}", e),
    }
    // An absolute entry ignores the prefix; no prefix passes through.
    match classify_pth_line("/abs/site-packages", &prefix) {
        PthLineAction::Materialize(e) => assert_eq!(e, "/abs/site-packages"),
        PthLineAction::Emit(e) => panic!("should materialize, emitted {}", e),
    }
    match classify_pth_line("plain", &None) {
        PthLineAction::Emit(e) => assert_eq!(e, "plain"),
        PthLineAction::Materialize(e) => panic!("should emit, materialized {}", e),
    }
}

#[test]
fn site_packages_setup_splits_lines() {
    let pth = py::pth::PthFile::new("src.pth", Some("pre".to_string()));
    let (mats, content) = pth.set_up_site_packages("pkg/site-packages\nplain/entry\n");
    assert_eq!(mats, vec!["pre/pkg/site-packages"]);
    assert_eq!(content, "pre/plain/entry\n");
}

#[test]
fn fallback_candidates_probe_the_action_layout() {
    let cands = py::shim::interpreter_fallback_candidates(
        "/root/sandbox/bazel-out/k8/bin/tool",
        "pytool/bin/python3",
    );
    assert_eq!(
        cands,
        vec![
            "/root/sandbox/external/pytool/bin/python3".to_string(),
            "/root/sandbox/bazel-out/k8-fastbuild/bin/external/pytool/bin/python3".to_string(),
            "/root/sandbox/pytool/bin/python3".to_string(),
            "/root/sandbox/bazel-out/k8-fastbuild/bin/pytool/bin/python3".to_string(),
        ]
    );
    let cands = py::shim::interpreter_fallback_candidates("tool", "p/b");
    assert_eq!(cands[0], "./external/p/b");
}

#[test]
fn link_collisions_follow_the_policy() {
    // No existing link: create, under every policy.
    assert_eq!(
        plan_symlink(false, false, &SymlinkCollisionResolutionStrategy::Error),
        Ok(SymlinkAction::Create)
    );
    // Identical content is never a collision.
    assert_eq!(
        plan_symlink(true, true, &SymlinkCollisionResolutionStrategy::Error),
        Ok(SymlinkAction::Skip)
    );
    // Differing content defers to the policy.
    assert_eq!(
        plan_symlink(true, false, &SymlinkCollisionResolutionStrategy::LastWins(true)),
        Ok(SymlinkAction::Replace(true))
    );
    assert_eq!(
        plan_symlink(true, false, &SymlinkCollisionResolutionStrategy::LastWins(false)),
        Ok(SymlinkAction::Replace(false))
    );
    assert_eq!(
        plan_symlink(true, false, &SymlinkCollisionResolutionStrategy::Error),
        Err(VenvCollision)
    );
}
