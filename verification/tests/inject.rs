use syncdoc_migrate::config::DocsPathMode;
use syncdoc_migrate::rewrite::inject::{
    has_module_doc_macro, has_omnidoc_attr, inject_module_doc_attr, inject_omnidoc_attr,
};

/// The tokens of `source` as proc-macro2 prints them.
fn tokens(source: &str) -> String {
    source
        .parse::<proc_macro2::TokenStream>()
        .expect("source lexes")
        .to_string()
}

#[test]
fn inject_test_inject_omnidoc_before_visibility() {
    let input = tokens(r#"pub fn test() {}"#);

    let output = inject_omnidoc_attr(&input, "docs", DocsPathMode::InlinePaths);
    let output_str = output.clone();

    println!("{}", output_str);

    // Should have omnidoc attribute with docs root
    assert!(output_str.contains("omnidoc"));
    assert!(output_str.contains("path"));
    assert!(output_str.contains("\"docs\""));

    // omnidoc should come after pub
    let pub_pos = output_str.find("pub").unwrap();
    let omnidoc_pos = output_str.find("omnidoc").unwrap();
    assert!(omnidoc_pos < pub_pos);
}

#[test]
fn inject_test_inject_omnidoc_before_derive() {
    let input = tokens(r#"#[derive(Debug)]
pub struct MyStruct;"#);

    let output = inject_omnidoc_attr(&input, "docs", DocsPathMode::InlinePaths);
    let output_str = output.clone();

    println!("{}", output_str);

    // omnidoc should come before derive
    let omnidoc_pos = output_str.find("omnidoc").unwrap();
    let derive_pos = output_str.find("derive").unwrap();
    assert!(omnidoc_pos < derive_pos);
}

#[test]
fn inject_test_inject_omnidoc_no_visibility() {
    let input = tokens(r#"fn private_func() {}"#);

    let output = inject_omnidoc_attr(&input, "docs", DocsPathMode::InlinePaths);
    let output_str = output.clone();

    assert!(output_str.contains("omnidoc"));
    assert!(output_str.contains("\"docs\""));
}

#[test]
fn inject_test_inject_omnidoc_toml_config_mode() {
    let input = tokens(r#"pub fn test() {}"#);

    let output = inject_omnidoc_attr(&input, "docs", DocsPathMode::TomlConfig);
    let output_str = output.clone();

    println!("{}", output_str);

    // Should have omnidoc attribute WITHOUT path parameter
    assert!(output_str.contains("omnidoc"));
    assert!(!output_str.contains("path"));
    assert!(!output_str.contains("\"docs\""));
}

#[test]
fn test_inject_omnidoc_idempotent() {
    let input = tokens(r#"#[syncdoc::omnidoc]
pub fn test() {}"#);

    let output = inject_omnidoc_attr(&input, "docs", DocsPathMode::InlinePaths);

    // Should return unchanged (no duplicate attribute)
    assert_eq!(output.clone(), input.clone());
}

#[test]
fn test_inject_omnidoc_idempotent_with_path() {
    let input = tokens(r#"#[syncdoc::omnidoc(path = "docs")]
pub fn test() {}"#);

    let output = inject_omnidoc_attr(&input, "docs", DocsPathMode::InlinePaths);

    // Should return unchanged
    assert_eq!(output.clone(), input.clone());
}

#[test]
fn test_inject_omnidoc_idempotent_short_form() {
    let input = tokens(r#"#[omnidoc]
pub fn test() {}"#);

    let output = inject_omnidoc_attr(&input, "docs", DocsPathMode::TomlConfig);

    // Should return unchanged (recognizes short form too)
    assert_eq!(output.clone(), input.clone());
}

#[test]
fn test_inject_omnidoc_with_other_attrs() {
    let input = tokens(r#"#[derive(Debug)]
#[syncdoc::omnidoc]
#[cfg(test)]
pub fn test() {}"#);

    let output = inject_omnidoc_attr(&input, "docs", DocsPathMode::InlinePaths);

    // Should return unchanged even with other attributes
    assert_eq!(output.clone(), input.clone());
}

#[test]
fn inject_tests_test_inject_omnidoc_before_visibility() {
    let input = tokens(r#"pub fn test() {}"#);

    let output = inject_omnidoc_attr(&input, "docs", DocsPathMode::InlinePaths);
    let output_str = output.clone();

    println!("{}", output_str);

    // Should have omnidoc attribute with docs root
    assert!(output_str.contains("omnidoc"));
    assert!(output_str.contains("path"));
    assert!(output_str.contains("\"docs\""));

    // omnidoc should come after pub
    let pub_pos = output_str.find("pub").unwrap();
    let omnidoc_pos = output_str.find("omnidoc").unwrap();
    assert!(omnidoc_pos < pub_pos);
}

#[test]
fn inject_tests_test_inject_omnidoc_before_derive() {
    let input = tokens(r#"#[derive(Debug)]
pub struct MyStruct;"#);

    let output = inject_omnidoc_attr(&input, "docs", DocsPathMode::InlinePaths);
    let output_str = output.clone();

    println!("{}", output_str);

    // omnidoc should come before derive
    let omnidoc_pos = output_str.find("omnidoc").unwrap();
    let derive_pos = output_str.find("derive").unwrap();
    assert!(omnidoc_pos < derive_pos);
}

#[test]
fn inject_tests_test_inject_omnidoc_no_visibility() {
    let input = tokens(r#"fn private_func() {}"#);

    let output = inject_omnidoc_attr(&input, "docs", DocsPathMode::InlinePaths);
    let output_str = output.clone();

    assert!(output_str.contains("omnidoc"));
    assert!(output_str.contains("\"docs\""));
}

#[test]
fn inject_tests_test_inject_omnidoc_toml_config_mode() {
    let input = tokens(r#"pub fn test() {}"#);

    let output = inject_omnidoc_attr(&input, "docs", DocsPathMode::TomlConfig);
    let output_str = output.clone();

    println!("{}", output_str);

    // Should have omnidoc attribute WITHOUT path parameter
    assert!(output_str.contains("omnidoc"));
    assert!(!output_str.contains("path"));
    assert!(!output_str.contains("\"docs\""));
}

#[test]
fn tests_test_inject_omnidoc_before_derive() {
    let input = tokens(r#"#[derive(Debug)]
pub struct MyStruct;"#);

    let output = inject_omnidoc_attr(&input, "docs", DocsPathMode::InlinePaths);
    let output_str = output.clone();

    // omnidoc should come before derive
    let omnidoc_pos = output_str.find("omnidoc").unwrap();
    let derive_pos = output_str.find("derive").unwrap();
    assert!(omnidoc_pos < derive_pos);
}

#[test]
fn tests_test_inject_omnidoc_no_visibility() {
    let input = tokens(r#"fn private_func() {}"#);

    let output = inject_omnidoc_attr(&input, "docs", DocsPathMode::InlinePaths);
    let output_str = output.clone();

    assert!(output_str.contains("omnidoc"));
    assert!(output_str.contains("\"docs\""));
}

#[test]
fn module_doc_attr_forms() {
    assert_eq!(
        inject_module_doc_attr("docs", DocsPathMode::InlinePaths),
        "# ! [doc = syncdoc :: module_doc ! (path = \"docs\")] "
    );
    assert_eq!(
        inject_module_doc_attr("docs", DocsPathMode::TomlConfig),
        "# ! [doc = syncdoc :: module_doc ! ()] "
    );
    // The injected attribute is recognised, so it is never injected twice.
    assert!(has_module_doc_macro(&inject_module_doc_attr(
        "docs",
        DocsPathMode::InlinePaths
    )));
    assert!(has_module_doc_macro(&inject_module_doc_attr(
        "x",
        DocsPathMode::TomlConfig
    )));
    assert!(!has_module_doc_macro("# ! [allow (dead_code)]"));
    assert!(!has_module_doc_macro("module_doc ! ()"));
}

#[test]
fn annotating_twice_is_annotating_once() {
    for mode in [DocsPathMode::InlinePaths, DocsPathMode::TomlConfig] {
        let once = inject_omnidoc_attr("pub fn f () { }", "my docs", mode);
        assert!(has_omnidoc_attr(&once));
        let twice = inject_omnidoc_attr(&once, "my docs", mode);
        assert_eq!(once, twice);
    }
    assert_eq!(
        inject_omnidoc_attr("pub fn f () { }", "d\"q", DocsPathMode::InlinePaths),
        "# [syncdoc :: omnidoc (path = \"d\\\"q\")] pub fn f () { }"
    );
}

#[test]
fn omnidoc_text_is_exact_and_injected_once() {
    let item = "pub fn f () { }";
    let once = inject_omnidoc_attr(item, "docs/api", DocsPathMode::InlinePaths);
    assert_eq!(
        once.replace(' ', ""),
        "#[syncdoc::omnidoc(path=\"docs/api\")]pubfnf(){}"
    );
    assert_eq!(
        inject_omnidoc_attr(&once, "docs/api", DocsPathMode::InlinePaths),
        once
    );
    let toml = inject_omnidoc_attr(item, "docs", DocsPathMode::TomlConfig);
    assert_eq!(toml.replace(' ', ""), "#[syncdoc::omnidoc]pubfnf(){}");
}
