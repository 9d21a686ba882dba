use syncdoc_migrate::rewrite::reformat::bookend::{
    bookend_line_request, bookend_requests, create_bookended_expr, extract_bookend_content,
    needs_bookending, reconstruct_inner_attr, reformat_bookended_lines, reformat_line,
    strip_bookends,
};

/// What rustfmt prints for the texts these tests hand it.
fn rustfmt_known(input: &str) -> Option<String> {
    let known = [(
        "const _: i32 = { doc=syncdoc::module_doc!(path=\"docs\") };",
        "const _: i32 = { doc = syncdoc::module_doc!(path = \"docs\") };\n",
    )];
    known
        .iter()
        .find(|(i, _)| *i == input)
        .map(|(_, o)| o.to_string())
}

#[test]
fn test_needs_bookending_detects_triggers() {
    assert!(needs_bookending(
        "#![ doc = syncdoc :: module_doc ! ( path = \"docs\" ) ]"
    ));
    assert!(needs_bookending("#![doc = module_doc!(path = \"docs\")]"));
    assert!(!needs_bookending("#[syncdoc::omnidoc]"));
    assert!(!needs_bookending("//! Not an attribute"));
}

#[test]
fn test_extract_bookend_content() {
    let line = "#![ doc = syncdoc :: module_doc ! ( path = \"docs\" ) ]";
    let content = extract_bookend_content(line);
    assert_eq!(
        content,
        Some("doc=syncdoc::module_doc!(path=\"docs\")".to_string())
    );
}

#[test]
fn test_create_bookended_expr() {
    let content = "doc = syncdoc::module_doc!(path = \"docs\")";
    let expr = create_bookended_expr(content);
    assert_eq!(
        expr,
        "const _: i32 = { doc = syncdoc::module_doc!(path = \"docs\") };"
    );
}

#[test]
fn test_strip_bookends() {
    let formatted = "const _: i32 = { doc = syncdoc::module_doc!(path = \"docs\") };";
    let stripped = strip_bookends(formatted);
    assert_eq!(
        stripped,
        Some("doc = syncdoc::module_doc!(path = \"docs\")".to_string())
    );
}

#[test]
fn test_reconstruct_inner_attr() {
    let content = "doc = syncdoc::module_doc!(path = \"docs\")";
    let attr = reconstruct_inner_attr(content);
    assert_eq!(attr, "#![doc = syncdoc::module_doc!(path = \"docs\")]");
}

#[test]
fn test_bookend_roundtrip() {
    let line = "#![ doc = syncdoc :: module_doc ! ( path = \"docs\" ) ]";
    let request = bookend_line_request(line).unwrap();
    let reformatted = reformat_line(line, rustfmt_known(&request));
    assert!(reformatted.is_some());
    let result = reformatted.unwrap();
    assert!(result.contains("module_doc!"));
    assert!(!result.contains(" :: "));
}

#[test]
fn test_reformat_bookended_lines_preserves_others() {
    let code = r#"#![ doc = syncdoc :: module_doc ! ( path = "docs" ) ]

#[syncdoc::omnidoc]
fn foo() {
    Ok(())
}
"#;

    let answers: Vec<Option<String>> = bookend_requests(code)
        .iter()
        .map(|r| r.as_ref().and_then(|q| rustfmt_known(q)))
        .collect();
    let result = reformat_bookended_lines(code, &answers);
    assert!(result.contains("module_doc!"));
    assert!(result.contains("#[syncdoc::omnidoc]"));
    assert!(result.contains("fn foo()"));
}

#[test]
fn bookend_content_keeps_spaces_inside_string_literals() {
    assert_eq!(
        extract_bookend_content("#![doc = module_doc!(path = \"my docs\")]"),
        Some("doc=module_doc!(path=\"my docs\")".to_string())
    );
    assert_eq!(
        extract_bookend_content("  #! [ doc = m!(p = \"a \\\" b\" , q) ]"),
        Some("doc=m!(p=\"a \\\" b\",q)".to_string())
    );
}

#[test]
fn strip_bookends_refuses_overlapping_wrapper() {
    assert_eq!(strip_bookends("const _: i32 = { };"), None);
    assert_eq!(strip_bookends("const _: i32 = {  };"), Some(String::new()));
}

#[test]
fn bookending_without_answers_keeps_the_lines() {
    let code = "#![doc = syncdoc::module_doc!()]\r\n\npub fn f() {}\n";
    let none = vec![None, None, None];
    assert_eq!(
        reformat_bookended_lines(code, &none),
        "#![doc = syncdoc::module_doc!()]\n\npub fn f() {}"
    );
}
