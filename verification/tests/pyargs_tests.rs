use py::pyargs::{reparse_args, ArgError};

#[test]
fn basic_args_preserved1() {
    let orig = vec!["python", "-B", "-s", "script.py", "arg1"];
    let reparsed = reparse_args(&orig);
    assert!(reparsed.is_ok(), "Args failed to parse {:?}", reparsed);
    let reparsed = reparsed.unwrap();
    assert!(
        orig == reparsed,
        "Args shouldn't have changed, got {:?}",
        reparsed
    );
}

#[test]
fn basic_args_preserved2() {
    let orig = vec!["python", "-s", "-c", "exit(0)", "arg1"];
    let reparsed = reparse_args(&orig);
    assert!(reparsed.is_ok(), "Args failed to parse {:?}", reparsed);
    let reparsed = reparsed.unwrap();
    assert!(
        orig == reparsed,
        "Args shouldn't have changed, got {:?}",
        reparsed
    );
}

#[test]
fn basic_binary_preserved() {
    let orig = vec![
        "/some/arbitrary/path/python",
        "-B",
        "-s",
        "script.py",
        "arg1",
    ];
    let reparsed = reparse_args(&orig);
    assert!(reparsed.is_ok(), "Args failed to parse {:?}", reparsed);
    let reparsed = reparsed.unwrap();
    assert!(
        orig == reparsed,
        "Args shouldn't have changed, got {:?}",
        reparsed
    );
}

#[test]
fn basic_s_remains() {
    // We expect to not modify the -s flag
    let orig = vec!["python", "-s", "-c", "exit(0)", "arg1"];
    let reparsed = reparse_args(&orig);
    assert!(reparsed.is_ok(), "Args failed to parse {:?}", reparsed);
    assert!(orig == reparsed.unwrap(), "Args shouldn't have changed");
}

#[test]
fn basic_e_gets_unset() {
    // We expect to REMOVE the -E flag
    let orig = vec!["python", "-E", "-s", "-c", "exit(0)", "arg1"];
    let expected = vec!["python", "-s", "-c", "exit(0)", "arg1"];
    let reparsed = reparse_args(&orig);
    assert!(reparsed.is_ok(), "Args failed to parse {:?}", reparsed);
    assert!(expected == reparsed.unwrap(), "-E wasn't unset");
}

#[test]
fn basic_i_becomes_s() {
    // We expect to CONVERT the -I flag to -E (which we ignore) and -s (which we keep)
    let orig = vec!["python", "-I", "-c", "exit(0)", "arg1"];
    let expected = vec!["python", "-s", "-c", "exit(0)", "arg1"];
    let reparsed = reparse_args(&orig);
    assert!(reparsed.is_ok(), "Args failed to parse {:?}", reparsed);
    assert!(expected == reparsed.unwrap(), "Didn't translate -I to -s");
}

#[test]
fn basic_add_s() {
    // We expect to ADD the -s flag
    let orig = vec!["python", "-c", "exit(0)", "arg1"];
    let expected = vec!["python", "-s", "-c", "exit(0)", "arg1"];
    let reparsed = reparse_args(&orig);
    assert!(reparsed.is_ok(), "Args failed to parse {:?}", reparsed);
    assert!(expected == reparsed.unwrap(), "Didn't add -s");
}

#[test]
fn basic_m_preserved() {
    // We expect to ADD the -s flag
    let orig = vec!["python", "-m", "build", "--unknown", "arg1"];
    let expected = vec!["python", "-s", "-m", "build", "--unknown", "arg1"];
    let reparsed = reparse_args(&orig);
    assert!(reparsed.is_ok(), "Args failed to parse {:?}", reparsed);
    assert!(expected == reparsed.unwrap(), "Didn't add -s");
}

#[test]
fn basic_trailing_args_preserved() {
    let orig = vec![
        "python3",
        "uv/private/sdist_build/build_helper.py",
        "bazel-out/darwin_arm64-fastbuild/bin/external/+uv+sbuild__pypi__default__bravado_core/src",
        "bazel-out/darwin_arm64-fastbuild/bin/external/+uv+sbuild__pypi__default__bravado_core/build"
    ];
    let expected = vec![
        "python3",
        "-s",
        "uv/private/sdist_build/build_helper.py",
        "bazel-out/darwin_arm64-fastbuild/bin/external/+uv+sbuild__pypi__default__bravado_core/src",
        "bazel-out/darwin_arm64-fastbuild/bin/external/+uv+sbuild__pypi__default__bravado_core/build"
    ];
    let reparsed = reparse_args(&orig);
    assert!(reparsed.is_ok(), "Args failed to parse {:?}", reparsed);
    let reparsed = reparsed.unwrap();
    assert!(
        expected == reparsed,
        "Something happened to the args, got {:?}",
        reparsed
    );
}

#[test]
fn m_preserved_s_added_varargs_preserved() {
    let orig = vec![
        "python3",
        "-m",
        "build",
        "--no-isolation",
        "--out-dir",
        "bazel-out/darwin_arm64-fastbuild/bin/external/+uv+sbuild__pypi__default__bravado_core/build",
        "bazel-out/darwin_arm64-fastbuild/bin/external/+uv+sbuild__pypi__default__bravado_core/src",
    ];
    let expected = vec![
        "python3",
        "-s",
        "-m",
        "build",
        "--no-isolation",
        "--out-dir",
        "bazel-out/darwin_arm64-fastbuild/bin/external/+uv+sbuild__pypi__default__bravado_core/build",
        "bazel-out/darwin_arm64-fastbuild/bin/external/+uv+sbuild__pypi__default__bravado_core/src",
    ];
    let reparsed = reparse_args(&orig);
    assert!(reparsed.is_ok(), "Args failed to parse {:?}", reparsed);
    let reparsed = reparsed.unwrap();
    assert!(
        expected == reparsed,
        "Something happened to the args, got {:?}",
        reparsed
    );
}

#[test]
fn warnings_and_extended_options_reemitted() {
    let orig = vec!["python", "-W", "error", "-X", "dev", "script.py"];
    let expected = vec!["python", "-s", "-W", "error", "-X", "dev", "script.py"];
    let reparsed = reparse_args(&orig).unwrap();
    assert_eq!(expected, reparsed);
}

#[test]
fn clustered_flags_unpacked() {
    let orig = vec!["python", "-bbEs", "-OO", "-vv", "script.py"];
    let expected = vec!["python", "-bb", "-s", "-OO", "-v", "-v", "script.py"];
    let reparsed = reparse_args(&orig).unwrap();
    assert_eq!(expected, reparsed);
}

#[test]
fn missing_value_is_an_error() {
    let orig = vec!["python", "-c"];
    assert_eq!(reparse_args(&orig), Err(ArgError::MissingValue));
}

#[test]
fn command_and_module_conflict() {
    let orig = vec!["python", "-c", "exit(0)", "-m"];
    // -m takes "-m"'s missing value first; use separate tokens so both parse.
    assert_eq!(reparse_args(&orig), Err(ArgError::MissingValue));
    let orig = vec!["python", "-c", "exit(0)", "-m", "build", "x"];
    assert_eq!(reparse_args(&orig), Err(ArgError::ConflictingFlags));
}

#[test]
fn help_is_reported_not_run() {
    let orig = vec!["python", "-h"];
    assert_eq!(reparse_args(&orig), Err(ArgError::HelpRequested));
    let orig = vec!["python", "--help"];
    assert_eq!(reparse_args(&orig), Err(ArgError::HelpRequested));
}

#[test]
fn double_dash_ends_flags() {
    let orig = vec!["python", "--", "-E", "-I"];
    let expected = vec!["python", "-s", "-E", "-I"];
    assert_eq!(reparse_args(&orig).unwrap(), expected);
}
