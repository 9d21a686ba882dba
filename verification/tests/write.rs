use syncdoc_migrate::write::build_path;

#[test]
fn write_test_build_path_with_context() {
    let path = build_path(
        "docs",
        &["module".to_string(), "submodule".to_string()],
        "func",
    );

    assert_eq!(path, "docs/module/submodule/func.md");
}

#[test]
fn write_test_build_path_no_context() {
    let path = build_path("docs", &[], "func");

    assert_eq!(path, "docs/func.md");
}

#[test]
fn tests_test_build_path_with_context() {
    let path = build_path(
        "docs",
        &["module".to_string(), "submodule".to_string()],
        "func",
    );
    assert_eq!(path, "docs/module/submodule/func.md");
}

#[test]
fn tests_test_build_path_no_context() {
    let path = build_path("docs", &[], "func");
    assert_eq!(path, "docs/func.md");
}
