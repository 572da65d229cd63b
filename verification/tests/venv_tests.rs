use py::paths::AbsPath;
use py::pth::SymlinkCollisionResolutionStrategy;
use py::venv::{
    create_empty_venv_layout, envvar_unset_lines, patch_entrypoint, plan_from_manifest,
    render_pth_file, resolve_commands, resolve_population, symlink_target, venv_layout,
    Command, CopyStrategy, FirstpartyThirdpartyStrategy, FsEntry, PlanContext, PthEntryHandler,
    PthStrategy, PythonVersionInfo, SrcSiteStrategy, StrategyWithBindir, SymlinkStrategy,
    VenvError,
};

fn abs(segs: &[&str]) -> AbsPath {
    AbsPath::new(segs.iter().map(|s| s.to_string()).collect()).unwrap()
}

fn segs(parts: &[&str]) -> Vec<String> {
    parts.iter().map(|s| s.to_string()).collect()
}

fn test_venv() -> py::venv::Virtualenv {
    let build_dir = abs(&["sandbox", "work"]);
    let version = PythonVersionInfo::from_str("3.11").unwrap();
    venv_layout(&build_dir, &segs(&["bazel-out", "bin", "app.venv"]), version)
}

fn test_ctx(snapshot: Vec<FsEntry>) -> PlanContext {
    PlanContext {
        action_src_dir: abs(&["sandbox", "work"]),
        action_bin_dir: abs(&["sandbox", "work", "bazel-out", "bin"]),
        main_repo: "_main".to_string(),
        snapshot,
    }
}

#[test]
fn version_parses_two_and_three_fields() {
    let v = PythonVersionInfo::from_str("3.11").unwrap();
    assert_eq!((v.major, v.minor, v.patch), (3, 11, 0));
    let v = PythonVersionInfo::from_str("3.11.2").unwrap();
    assert_eq!((v.major, v.minor, v.patch), (3, 11, 2));
    assert_eq!(
        PythonVersionInfo::from_str("3"),
        Err(VenvError::InvalidVersion)
    );
    assert_eq!(
        PythonVersionInfo::from_str("3.x"),
        Err(VenvError::InvalidVersion)
    );
    assert_eq!(
        PythonVersionInfo::from_str("3.11.2.1"),
        Err(VenvError::InvalidVersion)
    );
}

#[test]
fn layout_places_the_standard_tree() {
    let venv = test_venv();
    assert_eq!(
        venv.home_dir.segs,
        vec!["sandbox", "work", "bazel-out", "bin", "app.venv"]
    );
    assert_eq!(venv.bin_dir.segs.last().unwrap(), "bin");
    assert_eq!(
        venv.site_dir.segs[venv.site_dir.segs.len() - 3..].to_vec(),
        vec!["lib", "python3.11", "site-packages"]
    );
    assert_eq!(venv.python_bin.segs.last().unwrap(), "python");
}

#[test]
fn pth_strategy_points_back_at_the_runfiles_root() {
    // The site directory lies four levels below the action output dir;
    // the entry climbs those four plus one more to the runfiles root.
    let venv = test_venv();
    let ctx = test_ctx(Vec::new());
    let cmds = PthStrategy
        .plan(&venv, &ctx, "mypkg", &segs(&["lib"]))
        .unwrap();
    assert_eq!(cmds.len(), 1);
    match &cmds[0] {
        Command::PthEntry { path } => {
            assert_eq!(path.render(), "../../../../../mypkg/lib");
        }
        other => panic!("expected a pth entry, got {:?}", path_kind(other)),
    }
}

fn path_kind(c: &Command) -> &'static str {
    match c {
        Command::Copy { .. } => "copy",
        Command::CopyAndPatch { .. } => "copy-and-patch",
        Command::Symlink { .. } => "symlink",
        Command::PthEntry { .. } => "pth-entry",
    }
}

#[test]
fn copy_strategy_walks_both_roots() {
    let venv = test_venv();
    let root = abs(&["sandbox", "work", "mypkg", "lib"]);
    let snapshot = vec![
        FsEntry { path: root.clone(), is_dir: true },
        FsEntry { path: abs(&["sandbox", "work", "mypkg", "lib", "a.py"]), is_dir: false },
        FsEntry {
            path: abs(&["sandbox", "work", "mypkg", "lib", "sub", "b.py"]),
            is_dir: false,
        },
    ];
    let ctx = test_ctx(snapshot);
    let cmds = CopyStrategy
        .plan(&venv, &ctx, "mypkg", &segs(&["lib"]))
        .unwrap();
    assert_eq!(cmds.len(), 2);
    match &cmds[0] {
        Command::Copy { src, dest } => {
            assert_eq!(src.segs, vec!["sandbox", "work", "mypkg", "lib", "a.py"]);
            assert_eq!(dest.segs.last().unwrap(), "a.py");
            assert!(dest.starts_with(&venv.site_dir));
        }
        other => panic!("expected a copy, got {:?}", path_kind(other)),
    }
    match &cmds[1] {
        Command::Copy { dest, .. } => {
            let n = dest.segs.len();
            assert_eq!(dest.segs[n - 2..].to_vec(), vec!["sub", "b.py"]);
        }
        other => panic!("expected a copy, got {:?}", path_kind(other)),
    }
}

#[test]
fn copy_strategy_without_sources_plans_nothing() {
    let venv = test_venv();
    let ctx = test_ctx(Vec::new());
    let cmds = CopyStrategy
        .plan(&venv, &ctx, "mypkg", &segs(&["lib"]))
        .unwrap();
    assert!(cmds.is_empty());
}

#[test]
fn symlink_strategy_uses_external_for_other_repos() {
    let venv = test_venv();
    let snapshot = vec![
        FsEntry {
            path: abs(&["sandbox", "work", "external", "dep", "site", "x.py"]),
            is_dir: false,
        },
        FsEntry {
            path: abs(&["sandbox", "work", "external", "dep", "site"]),
            is_dir: true,
        },
    ];
    let ctx = test_ctx(snapshot);
    let cmds = SymlinkStrategy
        .plan(&venv, &ctx, "dep", &segs(&["site"]))
        .unwrap();
    assert_eq!(cmds.len(), 1);
    match &cmds[0] {
        Command::Symlink { src, .. } => {
            assert_eq!(
                src.segs,
                vec!["sandbox", "work", "external", "dep", "site", "x.py"]
            );
        }
        other => panic!("expected a symlink, got {:?}", path_kind(other)),
    }
}

#[test]
fn combinators_dispatch_as_configured() {
    let venv = test_venv();
    // A first-party source entry goes to the pth strategy; a third-party
    // site entry goes through the bindir-aware symlink strategy.
    let strategy = FirstpartyThirdpartyStrategy {
        firstparty: SrcSiteStrategy {
            src_strategy: PthStrategy,
            site_suffixes: segs(&["site-packages", "dist-packages"]),
            site_strategy: StrategyWithBindir {
                root_strategy: SymlinkStrategy,
                bin_strategy: py::venv::CopyAndPatchStrategy,
            },
        },
        thirdparty: SrcSiteStrategy {
            src_strategy: SymlinkStrategy,
            site_suffixes: segs(&["site-packages", "dist-packages"]),
            site_strategy: StrategyWithBindir {
                root_strategy: SymlinkStrategy,
                bin_strategy: py::venv::CopyAndPatchStrategy,
            },
        },
    };
    let snapshot = vec![
        FsEntry {
            path: abs(&["sandbox", "work", "external", "dep", "pkg", "site-packages"]),
            is_dir: true,
        },
        FsEntry {
            path: abs(&[
                "sandbox", "work", "external", "dep", "pkg", "site-packages", "m.py",
            ]),
            is_dir: false,
        },
        FsEntry {
            path: abs(&["sandbox", "work", "bazel-out", "bin", "dep", "pkg", "bin"]),
            is_dir: true,
        },
        FsEntry {
            path: abs(&["sandbox", "work", "bazel-out", "bin", "dep", "pkg", "bin", "tool"]),
            is_dir: false,
        },
    ];
    let ctx = test_ctx(snapshot);
    // First-party source entry emits one pth line.
    let cmds = strategy
        .plan(&venv, &ctx, "_main", &segs(&["src"]))
        .unwrap();
    assert_eq!(cmds.len(), 1);
    assert_eq!(path_kind(&cmds[0]), "pth-entry");
    // Third-party site entry links the tree and patches its bin dir.
    let cmds = strategy
        .plan(&venv, &ctx, "dep", &segs(&["pkg", "site-packages"]))
        .unwrap();
    assert_eq!(cmds.len(), 2);
    assert_eq!(path_kind(&cmds[0]), "symlink");
    assert_eq!(path_kind(&cmds[1]), "copy-and-patch");
}

#[test]
fn bindir_with_subdirs_is_refused() {
    let venv = test_venv();
    let snapshot = vec![
        FsEntry {
            path: abs(&["sandbox", "work", "dep", "bin"]),
            is_dir: true,
        },
        FsEntry {
            path: abs(&["sandbox", "work", "dep", "bin", "nested"]),
            is_dir: true,
        },
    ];
    let ctx = test_ctx(snapshot);
    let r = py::venv::CopyAndPatchStrategy.plan(&venv, &ctx, "dep", &segs(&["bin"]));
    assert_eq!(r.unwrap_err(), VenvError::BindirSubdirs);
}

#[test]
fn error_policy_aborts_on_collisions() {
    let venv = test_venv();
    let dest = venv.site_dir.child("pkg").child("mod.py");
    let plan = vec![
        Command::Copy { src: abs(&["sandbox", "in", "one", "mod.py"]), dest: dest.clone() },
        Command::Copy { src: abs(&["sandbox", "in", "two", "mod.py"]), dest: dest.clone() },
    ];
    let r = resolve_commands(
        &plan,
        &venv.home_dir,
        &SymlinkCollisionResolutionStrategy::Error,
    );
    assert_eq!(r.unwrap_err(), VenvError::Collisions);
}

#[test]
fn last_wins_keeps_the_last_source_and_reports() {
    let venv = test_venv();
    let dest = venv.site_dir.child("pkg").child("mod.py");
    let plan = vec![
        Command::Copy { src: abs(&["sandbox", "in", "one", "mod.py"]), dest: dest.clone() },
        Command::Copy { src: abs(&["sandbox", "in", "two", "mod.py"]), dest: dest.clone() },
    ];
    for warn in [true, false] {
        let r = resolve_commands(
            &plan,
            &venv.home_dir,
            &SymlinkCollisionResolutionStrategy::LastWins(warn),
        )
        .unwrap();
        assert_eq!(r.commands.len(), 1);
        match &r.commands[0] {
            Command::Copy { src, .. } => {
                assert_eq!(src.segs, vec!["sandbox", "in", "two", "mod.py"]);
            }
            other => panic!("expected a copy, got {:?}", path_kind(other)),
        }
        assert_eq!(r.collisions.len(), 1);
        assert_eq!(r.collisions[0].sources.len(), 2);
    }
}

#[test]
fn self_referential_sources_are_dropped() {
    let venv = test_venv();
    let dest = venv.site_dir.child("x.py");
    let inside = venv.home_dir.child("somewhere").child("x.py");
    let plan = vec![Command::Copy { src: inside, dest }];
    let r = resolve_commands(
        &plan,
        &venv.home_dir,
        &SymlinkCollisionResolutionStrategy::Error,
    )
    .unwrap();
    assert!(r.commands.is_empty());
    assert!(r.collisions.is_empty());
}

#[test]
fn injected_init_markers_never_materialize() {
    let venv = test_venv();
    let dest = venv.site_dir.child("__init__.py");
    let plan = vec![
        Command::Copy { src: abs(&["sandbox", "in", "a", "__init__.py"]), dest: dest.clone() },
        Command::Copy { src: abs(&["sandbox", "in", "b", "__init__.py"]), dest },
    ];
    // Even under the aborting policy, marker collisions are dropped silently.
    let r = resolve_commands(
        &plan,
        &venv.home_dir,
        &SymlinkCollisionResolutionStrategy::Error,
    )
    .unwrap();
    assert!(r.commands.is_empty());
    assert!(r.collisions.is_empty());
}

#[test]
fn population_is_deterministic() {
    // Resolving the same manifest twice yields the same plan: what the
    // executor writes is a function of the manifest alone.
    let venv = test_venv();
    let ctx = test_ctx(Vec::new());
    let manifest = "mypkg/lib\nmypkg/other\nmypkg\n";
    let a = resolve_population(
        &PthStrategy,
        &venv,
        &ctx,
        manifest,
        &SymlinkCollisionResolutionStrategy::LastWins(true),
    )
    .unwrap();
    let b = resolve_population(
        &PthStrategy,
        &venv,
        &ctx,
        manifest,
        &SymlinkCollisionResolutionStrategy::LastWins(false),
    )
    .unwrap();
    assert_eq!(render_pth_file(&a.commands), render_pth_file(&b.commands));
    assert_eq!(a.commands.len(), b.commands.len());
    assert_eq!(a.collisions.len(), b.collisions.len());
}

#[test]
fn manifest_lines_without_separator_name_the_workspace_root() {
    let venv = test_venv();
    let ctx = test_ctx(Vec::new());
    let cmds = plan_from_manifest(&PthStrategy, &venv, &ctx, "mypkg\n").unwrap();
    assert_eq!(cmds.len(), 1);
    match &cmds[0] {
        Command::PthEntry { path } => assert_eq!(path.render(), "../../../../../mypkg"),
        other => panic!("expected a pth entry, got {:?}", path_kind(other)),
    }
}

#[test]
fn malformed_manifest_lines_are_refused() {
    let venv = test_venv();
    let ctx = test_ctx(Vec::new());
    let r = plan_from_manifest(&PthStrategy, &venv, &ctx, "mypkg/lib\n\nother/x\n");
    assert_eq!(r.unwrap_err(), VenvError::InvalidManifestEntry);
    let r = plan_from_manifest(&PthStrategy, &venv, &ctx, "../escape\n");
    assert_eq!(r.unwrap_err(), VenvError::InvalidManifestEntry);
}

#[test]
fn pth_file_carries_the_header_and_entries() {
    let venv = test_venv();
    let ctx = test_ctx(Vec::new());
    let cmds = plan_from_manifest(&PthStrategy, &venv, &ctx, "mypkg/lib\n").unwrap();
    let content = render_pth_file(&cmds);
    assert_eq!(
        content,
        "# Generated by Aspect py_binary\n# Contains relative import paths to non site-package trees within the .runfiles\n../../../../../mypkg/lib\n"
    );
}

#[test]
fn symlink_targets_are_relative_and_resolve() {
    // The link target never names the build-time absolute root: moving
    // the whole tree keeps it valid.
    let src = abs(&["sandbox", "work", "external", "dep", "m.py"]);
    let dest = abs(&["sandbox", "work", "bazel-out", "bin", "v", "site", "m.py"]);
    let t = symlink_target(&src, &dest);
    assert_eq!(t.render(), "../../../../external/dep/m.py");
    assert_eq!(t.up, 4);
    assert_eq!(t.down, vec!["external", "dep", "m.py"]);
}

#[test]
fn shebangs_are_rewritten_for_relocation() {
    let reloc = "#!/bin/sh\n'''exec' \"$(dirname -- \"$(realpath -- \"$0\")\")\"/'python3' \"$0\" \"$@\"\n' '''\n";
    let mut content = b"#!/usr/bin/env python\n".to_vec();
    content.extend(std::iter::repeat(b'x').take(64));
    let (out, found) = patch_entrypoint(&content);
    assert!(found);
    let mut expected = reloc.as_bytes().to_vec();
    expected.extend_from_slice(&content[21..]);
    assert_eq!(out, expected);
}

#[test]
fn short_or_plain_files_pass_through() {
    // A file shorter than the 64-byte probe is never patched, shebang or not.
    let content = b"#!/usr/bin/env python\nprint(1)\n".to_vec();
    let (out, found) = patch_entrypoint(&content);
    assert!(!found);
    assert_eq!(out, content);
    // A long file without a recognized shebang passes through too.
    let plain = vec![b'y'; 100];
    let (out, found) = patch_entrypoint(&plain);
    assert!(!found);
    assert_eq!(out, plain);
}

#[test]
fn empty_venv_layout_checks_the_interpreter() {
    let build_dir = abs(&["sandbox", "work"]);
    let version = PythonVersionInfo::from_str("3.11").unwrap();
    let r = create_empty_venv_layout(false, false, &build_dir, &segs(&["v"]), version);
    assert_eq!(r.unwrap_err(), VenvError::MissingInterpreter);
    let (_, runfiles_keys) =
        create_empty_venv_layout(false, true, &build_dir, &segs(&["v"]), version).unwrap();
    assert!(runfiles_keys);
    let (_, runfiles_keys) =
        create_empty_venv_layout(true, true, &build_dir, &segs(&["v"]), version).unwrap();
    assert!(!runfiles_keys);
}

#[test]
fn env_files_become_unset_statements() {
    let out = envvar_unset_lines("FOO=1\n# comment\nBAR = 2\n");
    assert_eq!(out, "    unset FOO\n    unset BAR");
    assert_eq!(envvar_unset_lines(""), "");
}
