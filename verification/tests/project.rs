use herdr_agent_diff::project::{normalize_workspace_path, ProjectScope};

#[test]
fn parses_directories_and_exclusions() {
    let scope = ProjectScope::parse(
        "directories:\n  java/foo\n  java/bar # source\n  -java/foo/generated\ntargets:\n  //...\n",
    )
    .expect("scope");

    assert!(scope.contains_relative_path(b"java/foo/Main.java"));
    assert!(scope.contains_relative_path(b"java/bar/Main.java"));
    assert!(!scope.contains_relative_path(b"java/foo/generated/x.java"));
    assert!(!scope.contains_relative_path(b"other/Main.java"));
}

#[test]
fn matches_bazelproject_wildcard_exclusions() {
    let scope = ProjectScope::parse("directories:\n  .\n  -examples/*\n").expect("scope");

    assert!(scope.contains_relative_path(b"src/Main.kt"));
    assert!(!scope.contains_relative_path(b"examples/README.md"));
    assert!(!scope.contains_relative_path(b"examples/android/BUILD"));
    assert!(scope.allows_relative(b"examples", true));
    assert!(!scope.allows_relative(b"examples/android", true));
}

#[test]
fn rejects_paths_that_escape_the_workspace() {
    assert!(normalize_workspace_path("../outside").is_none());
    assert!(normalize_workspace_path("/absolute").is_none());
    assert_eq!(
        normalize_workspace_path("./java/foo").expect("normalized"),
        b"java/foo".to_vec()
    );
}
