use syncdoc_migrate::extract::{
    extract_doc_content, extract_from_inner_attr, extract_from_single_attr,
    extract_inner_doc_content, extract_string_literal, find_closing_quote, has_doc_attrs,
    is_doc_attribute_bracket, is_inner_doc_attr, is_outer_doc_attr, unescape_rust_string,
    Attribute, InnerAttribute,
};

/// The outer attributes written in `sources`, one attribute per entry.
fn parse_attrs(sources: &[&str]) -> Option<Vec<Attribute>> {
    Some(
        sources
            .iter()
            .map(|s| Attribute::from_source(s).expect("attribute lexes"))
            .collect(),
    )
}

#[test]
fn test_extract_empty() {
    let result = extract_doc_content(&None);
    assert_eq!(result, None);

    let attrs = parse_attrs(&[]);
    let result = extract_doc_content(&attrs);
    assert_eq!(result, None);
}

#[test]
fn test_extract_single() {
    let attrs = parse_attrs(&["#[doc = \"This is documentation\"]"]);
    let result = extract_doc_content(&attrs);

    assert_eq!(result, Some("This is documentation".to_string()));
}

#[test]
fn test_extract_multiple() {
    let attrs = parse_attrs(&[
        "#[doc = \"First line\"]",
        "#[doc = \"Second line\"]",
        "#[doc = \"Third line\"]",
    ]);
    let result = extract_doc_content(&attrs);

    assert_eq!(
        result,
        Some("First line\nSecond line\nThird line".to_string())
    );
}

#[test]
fn test_extract_preserves_formatting() {
    let attrs = parse_attrs(&[
        "#[doc = \"# Header\"]",
        "#[doc = \"\"]",
        "#[doc = \"- List item 1\"]",
        "#[doc = \"- List item 2\"]",
    ]);
    let result = extract_doc_content(&attrs);

    assert_eq!(
        result,
        Some("# Header\n\n- List item 1\n- List item 2".to_string())
    );
}

#[test]
fn test_extract_ignores_non_doc() {
    let attrs = parse_attrs(&[
        "#[derive(Debug)]",
        "#[doc = \"Actual documentation\"]",
        "#[cfg(test)]",
    ]);
    let result = extract_doc_content(&attrs);

    assert_eq!(result, Some("Actual documentation".to_string()));
}

#[test]
fn test_has_doc_attrs() {
    let attrs = parse_attrs(&["#[derive(Debug)]"]);
    assert!(!has_doc_attrs(&attrs));

    let attrs = parse_attrs(&["#[doc = \"Has docs\"]"]);
    assert!(has_doc_attrs(&attrs));
}

#[test]
fn test_extract_strips_leading_spaces() {
    // Simulate what Rust actually does with doc comments
    let attrs = parse_attrs(&[
        "#[doc = \" First line\"]",
        "#[doc = \" Second line with  intentional indent\"]",
        "#[doc = \"  Third line with more indent\"]",
    ]);
    let result = extract_doc_content(&attrs);

    assert_eq!(
        result,
        Some(
            "First line\nSecond line with  intentional indent\n Third line with more indent"
                .to_string()
        )
    );
}

#[test]
fn attribute_tokens_are_printed_by_proc_macro2() {
    let attr = Attribute::from_source("#[doc=\"x\"]").unwrap();
    assert_eq!(attr.tokens, "# [doc = \"x\"]");
    let comment = Attribute::from_source("/// Hello").unwrap();
    assert_eq!(comment.tokens, "# [doc = \" Hello\"]");
    assert!(Attribute::from_source("#[doc = \"unterminated]").is_none());
}

#[test]
fn doc_comments_become_documentation() {
    let attrs = Some(vec![
        Attribute::from_source("/// Hello").unwrap(),
        Attribute::from_source("/// world").unwrap(),
    ]);
    assert_eq!(extract_doc_content(&attrs), Some("Hello\nworld".to_string()));
}

#[test]
fn inner_doc_attributes_are_read() {
    let first = InnerAttribute::from_source("//! Module line one").unwrap();
    println!("{:?}", first.tokens);
    let attrs = Some(vec![
        first,
        InnerAttribute::from_source("#![allow(dead_code)]").unwrap(),
        InnerAttribute::from_source("#![doc = \"  two\"]").unwrap(),
    ]);
    assert_eq!(
        extract_inner_doc_content(&attrs),
        Some("Module line one\n two".to_string())
    );
    // An outer attribute is not an inner one.
    let outer = InnerAttribute {
        tokens: "# [doc = \"x\"]".to_string(),
    };
    assert_eq!(extract_from_inner_attr(&outer), None);
}

#[test]
fn single_attribute_extraction() {
    let attr = Attribute {
        tokens: "# [doc = \"a \\\"quoted\\\" word\"]".to_string(),
    };
    assert_eq!(
        extract_from_single_attr(&attr),
        Some("a \"quoted\" word".to_string())
    );
    let inner = Attribute {
        tokens: "# ! [doc = \"x\"]".to_string(),
    };
    assert_eq!(extract_from_single_attr(&inner), None);
    let not_doc = Attribute {
        tokens: "# [derive (Debug)]".to_string(),
    };
    assert_eq!(extract_from_single_attr(&not_doc), None);
}

#[test]
fn string_literals_of_each_kind() {
    assert_eq!(
        extract_string_literal("  \"a\\tb\" rest"),
        Some("a\tb".to_string())
    );
    assert_eq!(
        extract_string_literal("r#\"raw \\n text\"#"),
        Some("raw \\n text".to_string())
    );
    assert_eq!(
        extract_string_literal("r\"raw\""),
        Some("raw".to_string())
    );
    assert_eq!(extract_string_literal("\"unterminated"), None);
    assert_eq!(extract_string_literal("\"éé\""), Some("éé".to_string()));
    assert_eq!(extract_string_literal("r\"ü x\""), Some("ü x".to_string()));
    assert_eq!(extract_string_literal("not a literal"), None);
}

#[test]
fn closing_quote_skips_escapes() {
    assert_eq!(find_closing_quote("\"ab\\\"c\"d", 1), Some(6));
    assert_eq!(find_closing_quote("\"abc", 1), None);
    assert_eq!(find_closing_quote("xx\"", 0), Some(2));
    assert_eq!(find_closing_quote("\"é\"", 1), Some(3));
    assert_eq!(find_closing_quote("é\"", 2), Some(2));
}

#[test]
fn unescaping() {
    assert_eq!(unescape_rust_string("a\\nb"), "a\nb");
    assert_eq!(unescape_rust_string("\\r\\t\\\\\\0\\'\\\""), "\r\t\\\0'\"");
    assert_eq!(unescape_rust_string("\\x41\\x7a"), "Az");
    assert_eq!(unescape_rust_string("\\xZZ!"), "\\xZZ!");
    assert_eq!(unescape_rust_string("\\u{1F600}"), "\u{1F600}");
    assert_eq!(unescape_rust_string("\\u{D800}"), "\\u{D800}");
    assert_eq!(unescape_rust_string("\\u{zz}x"), "\\u{zz}x");
    assert_eq!(unescape_rust_string("\\uxyz"), "\\uyz");
    assert_eq!(unescape_rust_string("\\q"), "\\q");
    assert_eq!(unescape_rust_string("end\\"), "end\\");
    assert_eq!(unescape_rust_string("plain text"), "plain text");
}

#[test]
fn doc_brackets() {
    assert!(is_doc_attribute_bracket("[doc = \"x\"]"));
    assert!(is_doc_attribute_bracket("[ cfg_attr (doc , doc = \"x\")]"));
    assert!(!is_doc_attribute_bracket("[cfg_attr (feature = \"serde\" , derive (Debug))]"));
    assert!(!is_doc_attribute_bracket("[docs]"));
    assert!(!is_doc_attribute_bracket("[derive (Debug)]"));
    assert!(!is_doc_attribute_bracket("no bracket"));
    let outer = Attribute {
        tokens: "# [doc = \"x\"]".to_string(),
    };
    assert!(is_outer_doc_attr(&outer));
    let inner = InnerAttribute {
        tokens: "# ! [allow (unused)]".to_string(),
    };
    assert!(!is_inner_doc_attr(&inner));
}

#[test]
fn non_ascii_doc_comments_are_read_whole() {
    let attrs = Some(vec![
        Attribute::from_source("/// héllo wörld").unwrap(),
        Attribute::from_source("/// ça va").unwrap(),
    ]);
    assert_eq!(
        extract_doc_content(&attrs),
        Some("héllo wörld\nça va".to_string())
    );
}

#[test]
fn unescaping_undoes_escape_default() {
    for t in [
        "plain",
        "tab\there, \"quoted\", 'single', back\\slash\r\n",
        "é ü \u{1F600} \u{0} \u{7f}",
        "",
    ] {
        assert_eq!(unescape_rust_string(&t.escape_default().to_string()), t);
    }
}
