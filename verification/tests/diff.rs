use syncdoc_migrate::rewrite::reformat::diff::apply::{
    apply_diff, apply_diff_restore, is_module_level_hunk, should_skip_from_transformed,
};
use syncdoc_migrate::rewrite::reformat::diff::compute_line_diff;
use syncdoc_migrate::rewrite::reformat::diff::hunk::{
    is_doc_related_hunk, is_restore_related_hunk, split_hunk_if_mixed, DiffHunk,
};


fn hunk(
    before_start: usize,
    before_count: usize,
    after_start: usize,
    after_count: usize,
) -> DiffHunk {
    DiffHunk {
        before_start,
        before_count,
        after_start,
        after_count,
    }
}

fn lines(text: &str) -> Vec<&str> {
    text.lines().collect()
}

fn compute_hunks(before: &str, after: &str) -> Vec<DiffHunk> {
    compute_line_diff(before, after)
}

// Helper to create test scenarios
struct TestCase {
    original: &'static str,
    transformed: &'static str,
}

impl TestCase {
    fn new(original: &'static str, transformed: &'static str) -> Self {
        Self {
            original,
            transformed,
        }
    }

    fn original_lines(&self) -> Vec<&str> {
        lines(self.original)
    }

    fn transformed_lines(&self) -> Vec<&str> {
        lines(self.transformed)
    }

    fn compute_hunks(&self) -> Vec<DiffHunk> {
        compute_hunks(self.original, self.transformed)
    }
}

// Common test cases
fn module_doc_to_macro() -> TestCase {
    TestCase::new(
        r#"//! Module documentation
//!
//! More details here

fn foo() {}"#,
        r#"#![doc = syncdoc::module_doc!()]

fn foo() {}"#,
    )
}

fn item_doc_to_omnidoc() -> TestCase {
    TestCase::new(
        r#"/// Item documentation
struct MyStruct;"#,
        r#"#[syncdoc::omnidoc]
struct MyStruct;"#,
    )
}

fn struct_fields_doc() -> TestCase {
    TestCase::new(
        r#"struct Section {
    /// Section heading text without markup symbols.
    pub title: String,
}"#,
        r#"#[syncdoc::omnidoc]
struct Section {
    pub title: String,
}"#,
    )
}

fn enum_variants_doc() -> TestCase {
    TestCase::new(
        r#"pub enum ChunkType {
    /// Only RHS exists
    Added,
    /// Only LHS exists
    Deleted,
}"#,
        r#"#[syncdoc::omnidoc]
pub enum ChunkType {
    Added,
    Deleted,
}"#,
    )
}

#[test]
fn applies_multiple_hunks() {
    let original = r#"/// Doc A
pub fn a() {}

/// Doc B
pub fn b() {}"#;

    let after = r#"#[syncdoc::omnidoc]
pub fn a() {}

#[syncdoc::omnidoc]
pub fn b() {}"#;

    let hunks = compute_hunks(original, after);
    let result = apply_diff(original, &hunks, after);

    assert!(result.contains("omnidoc"));
    assert_eq!(result.matches("omnidoc").count(), 2);
}

#[test]
fn restore_strips_bookends() {
    let original = r#"#[syncdoc::omnidoc]
pub fn test() {}"#;

    let after = r#"#[doc = "/// Documentation"]
pub fn test() {}"#;

    let hunks = compute_hunks(original, after);
    let result = apply_diff_restore(original, &hunks, after);

    // Should convert #[doc = "/// ..."] to /// ...
    assert!(result.contains("/// Documentation"));
    assert!(!result.contains("#[doc"));
}

#[test]
fn applies_hunks_in_order() {
    let original = r#"//! Module

/// Item A
pub fn a() {}

/// Item B
pub fn b() {}"#;

    let after = r#"#![doc = syncdoc::module_doc!()]

#[syncdoc::omnidoc]
pub fn a() {}

#[syncdoc::omnidoc]
pub fn b() {}"#;

    let hunks = compute_hunks(original, after);
    let result = apply_diff(original, &hunks, after);

    // Verify order: module doc first, then items
    let lines: Vec<&str> = result.lines().collect();
    let module_doc_idx = lines
        .iter()
        .position(|l| l.contains("module_doc"))
        .expect("Should have module_doc");

    let first_omnidoc = lines
        .iter()
        .position(|l| l.contains("omnidoc"))
        .expect("Should have omnidoc");

    assert!(
        module_doc_idx < first_omnidoc,
        "Module doc should come before item attributes"
    );
}

#[test]
fn preserves_blank_between_items() {
    let original = r#"pub struct Foo;

pub struct Bar;"#;

    let transformed = r#"#[syncdoc::omnidoc]
pub struct Foo;

#[syncdoc::omnidoc]
pub struct Bar;"#;

    let hunks = compute_hunks(original, transformed);
    let result = apply_diff(original, &hunks, transformed);

    // Count blank lines
    let blank_count = result.lines().filter(|l| l.trim().is_empty()).count();
    assert_eq!(blank_count, 1, "Should preserve blank line between items");
}

#[test]
fn preserves_cfg_attrs() {
    let original = r#"#[cfg(test)]
/// Documentation
pub fn test() {}"#;

    let transformed = r#"#[syncdoc::omnidoc]
pub fn test() {}"#;

    let hunks = compute_hunks(original, transformed);
    let result = apply_diff(original, &hunks, transformed);

    assert!(result.contains("#[cfg(test)]"), "Should preserve cfg");
}

#[test]
fn preserves_regular_comments() {
    let original = r#"// Regular comment
/// Doc comment
pub fn test() {}"#;

    let transformed = r#"#[syncdoc::omnidoc]
pub fn test() {}"#;

    let hunks = compute_hunks(original, transformed);
    let result = apply_diff(original, &hunks, transformed);

    assert!(
        result.contains("// Regular comment"),
        "Should preserve regular comments"
    );
}

#[test]
fn does_not_preserve_doc_comments() {
    let original = r#"/// Doc comment
//! Inner doc
pub fn test() {}"#;

    let transformed = r#"#[syncdoc::omnidoc]
pub fn test() {}"#;

    let hunks = compute_hunks(original, transformed);
    let result = apply_diff(original, &hunks, transformed);

    assert!(
        !result.contains("/// Doc comment"),
        "Should not preserve doc comments"
    );
    assert!(
        !result.contains("//! Inner doc"),
        "Should not preserve inner docs"
    );
}

#[test]
fn detects_omnidoc_removal() {
    let case = TestCase::new(
        r#"#[syncdoc::omnidoc]
pub fn test() {}"#,
        r#"/// Documentation
pub fn test() {}"#,
    );

    let hunks = case.compute_hunks();
    assert!(!hunks.is_empty());

    let is_restore =
        is_restore_related_hunk(&hunks[0], &case.original_lines(), &case.transformed_lines());

    assert!(is_restore, "Should detect omnidoc removal during restore");
}

#[test]
fn detects_module_doc_macro_removal() {
    let case = TestCase::new(
        r#"#![doc = syncdoc::module_doc!()]
pub fn test() {}"#,
        r#"//! Module documentation
pub fn test() {}"#,
    );

    let hunks = case.compute_hunks();
    let is_restore =
        is_restore_related_hunk(&hunks[0], &case.original_lines(), &case.transformed_lines());

    assert!(is_restore, "Should detect module_doc macro removal");
}

#[test]
fn detects_doc_comment_addition() {
    let case = TestCase::new(
        r#"#[syncdoc::omnidoc]
pub struct MyStruct;"#,
        r#"/// Struct docs
pub struct MyStruct;"#,
    );

    let hunks = case.compute_hunks();
    let is_restore =
        is_restore_related_hunk(&hunks[0], &case.original_lines(), &case.transformed_lines());

    assert!(is_restore, "Should detect doc comment addition");
}

#[test]
fn detects_doc_attr_addition() {
    let case = TestCase::new(
        r#"#[syncdoc::omnidoc]
pub fn test() {}"#,
        r#"#[doc = "/// Function docs"]
pub fn test() {}"#,
    );

    let hunks = case.compute_hunks();
    let is_restore =
        is_restore_related_hunk(&hunks[0], &case.original_lines(), &case.transformed_lines());

    assert!(is_restore, "Should detect doc attribute addition");
}

#[test]
fn ignores_non_restore_changes() {
    let case = TestCase::new(
        r#"#[derive(Debug)]
pub fn test() {}"#,
        r#"#[derive(Clone)]
pub fn test() {}"#,
    );

    let hunks = case.compute_hunks();
    if !hunks.is_empty() {
        let is_restore =
            is_restore_related_hunk(&hunks[0], &case.original_lines(), &case.transformed_lines());

        assert!(!is_restore, "Should ignore non-restore changes");
    }
}

#[test]
fn skips_non_doc_outer_attrs() {
    assert!(should_skip_from_transformed("#[derive(Debug)]"));
    assert!(should_skip_from_transformed("#[cfg(test)]"));
    assert!(should_skip_from_transformed("# [derive (Debug)]")); // rustfmt'd
}

#[test]
fn skips_non_doc_inner_attrs() {
    assert!(should_skip_from_transformed("#![allow(dead_code)]"));
    assert!(should_skip_from_transformed("# ! [allow (dead_code)]")); // rustfmt'd
}

#[test]
fn skips_regular_comments() {
    assert!(should_skip_from_transformed("// Regular comment"));
    assert!(should_skip_from_transformed("    // Indented comment"));
}

#[test]
fn does_not_skip_doc_attrs() {
    assert!(!should_skip_from_transformed(
        "#[doc = \"/// Documentation\"]"
    ));
    assert!(!should_skip_from_transformed(
        "#![doc = \"//! Module doc\"]"
    ));
}

#[test]
fn does_not_skip_omnidoc() {
    assert!(!should_skip_from_transformed("#[syncdoc::omnidoc]"));
    assert!(!should_skip_from_transformed("#[omnidoc]"));
}

#[test]
fn does_not_skip_doc_comments() {
    assert!(!should_skip_from_transformed("/// Documentation"));
    assert!(!should_skip_from_transformed("//! Module doc"));
}

#[test]
fn does_not_skip_regular_code() {
    assert!(!should_skip_from_transformed("pub fn test() {}"));
    assert!(!should_skip_from_transformed("struct Foo;"));
}

#[test]
fn preserves_unsplittable_hunks() {
    let case = item_doc_to_omnidoc();
    let hunks = case.compute_hunks();

    if !hunks.is_empty() {
        let split = split_hunk_if_mixed(&hunks[0], &case.transformed_lines());
        assert_eq!(split.len(), 1, "Item-only hunk should not be split");
    }
}

#[test]
fn handles_deletion_only_hunks() {
    let hunk = hunk(0, 5, 0, 0); // Deletes 5 lines, adds nothing
    let after_lines = vec![];

    let split = split_hunk_if_mixed(&hunk, &after_lines);
    assert_eq!(split.len(), 1, "Deletion-only hunks shouldn't split");
}

#[test]
fn handles_insertion_only_hunks() {
    let hunk = hunk(0, 0, 0, 3); // Adds 3 lines, deletes nothing
    let after_lines = vec!["line1", "line2", "line3"];

    let split = split_hunk_if_mixed(&hunk, &after_lines);
    assert_eq!(split.len(), 1, "Insertion-only hunks shouldn't split");
}

#[test]
fn detects_doc_comment_removal() {
    let case = TestCase::new(
        r#"/// Documentation
pub fn test() {}"#,
        r#"pub fn test() {}"#,
    );

    let hunks = case.compute_hunks();
    assert_eq!(hunks.len(), 1);

    let is_doc = is_doc_related_hunk(&hunks[0], &case.original_lines(), &case.transformed_lines());

    assert!(is_doc, "Should detect doc comment removal");
}

#[test]
fn detects_module_doc_removal() {
    let case = TestCase::new(
        r#"//! Module doc
pub fn test() {}"#,
        r#"pub fn test() {}"#,
    );

    let hunks = case.compute_hunks();
    let is_doc = is_doc_related_hunk(&hunks[0], &case.original_lines(), &case.transformed_lines());

    assert!(is_doc, "Should detect module doc removal");
}

#[test]
fn detects_omnidoc_addition() {
    let case = item_doc_to_omnidoc();

    let hunks = case.compute_hunks();
    let is_doc = is_doc_related_hunk(&hunks[0], &case.original_lines(), &case.transformed_lines());

    assert!(is_doc, "Should detect omnidoc addition");
}

#[test]
fn detects_module_doc_macro_addition() {
    let case = module_doc_to_macro();

    let hunks = case.compute_hunks();
    let is_doc = is_doc_related_hunk(&hunks[0], &case.original_lines(), &case.transformed_lines());

    assert!(is_doc, "Should detect module_doc macro addition");
}

#[test]
fn ignores_non_doc_changes() {
    let case = TestCase::new(
        r#"#[derive(Debug)]
pub fn test() {}"#,
        r#"#[derive(Clone)]
pub fn test() {}"#,
    );

    let hunks = case.compute_hunks();
    if !hunks.is_empty() {
        let is_doc =
            is_doc_related_hunk(&hunks[0], &case.original_lines(), &case.transformed_lines());

        assert!(!is_doc, "Should ignore non-doc attribute changes");
    }
}

#[test]
fn detects_field_doc_removal() {
    let case = struct_fields_doc();

    let hunks = case.compute_hunks();

    // Find the hunk that removes field documentation
    let doc_hunks: Vec<_> = hunks
        .iter()
        .filter(|h| is_doc_related_hunk(h, &case.original_lines(), &case.transformed_lines()))
        .collect();

    assert!(
        !doc_hunks.is_empty(),
        "Should detect field documentation changes"
    );
}

#[test]
fn detects_variant_doc_removal() {
    let case = enum_variants_doc();

    let hunks = case.compute_hunks();

    let doc_hunks: Vec<_> = hunks
        .iter()
        .filter(|h| is_doc_related_hunk(h, &case.original_lines(), &case.transformed_lines()))
        .collect();

    assert!(
        !doc_hunks.is_empty(),
        "Should detect variant documentation changes"
    );
}

#[test]
fn identifies_module_doc_macro() {
    let after_lines = lines(
        r#"#![doc = syncdoc::module_doc!()]
pub fn test() {}"#,
    );

    let hunk = hunk(0, 1, 0, 1);

    assert!(
        is_module_level_hunk(&hunk, &after_lines),
        "Should identify module_doc macro"
    );
}

#[test]
fn identifies_inner_doc_attr() {
    let after_lines = lines(
        r#"#![doc = "//! Module doc"]
pub fn test() {}"#,
    );

    let hunk = hunk(0, 1, 0, 1);

    assert!(
        is_module_level_hunk(&hunk, &after_lines),
        "Should identify inner doc attribute"
    );
}

#[test]
fn rejects_outer_attributes() {
    let after_lines = lines(
        r#"#[syncdoc::omnidoc]
pub fn test() {}"#,
    );

    let hunk = hunk(0, 1, 0, 1);

    assert!(
        !is_module_level_hunk(&hunk, &after_lines),
        "Should reject outer attributes"
    );
}

#[test]
fn rejects_regular_code() {
    let after_lines = lines(
        r#"pub fn test() {
    println!("hello");
}"#,
    );

    let hunk = hunk(0, 3, 0, 3);

    assert!(
        !is_module_level_hunk(&hunk, &after_lines),
        "Should reject regular code"
    );
}

#[test]
fn handles_mixed_inner_outer() {
    let after_lines = lines(
        r#"#![doc = syncdoc::module_doc!()]
#[syncdoc::omnidoc]
pub struct Test;"#,
    );

    // Hunk spanning both
    let hunk = hunk(0, 3, 0, 3);

    assert!(
        is_module_level_hunk(&hunk, &after_lines),
        "Should identify mixed hunk as module-level if it contains module docs"
    );
}

fn full_module_doc() -> TestCase {
    TestCase::new(
        r#"//! Section representation for tree-sitter parsed documents.
//!
//! A section represents a hierarchical division of a document, typically
//! corresponding to a heading in markdown. Sections track their position
//! in the document tree through parent/child relationships and maintain
//! precise byte and line coordinates for content extraction and modification.

#[derive(Clone)]
/// Hierarchical document division with precise coordinates for extraction and modification.
pub struct Section {
    /// Section heading text without markup symbols.
    pub title: String,
}

/// What sort of hunk (syntactic diff atomic unit) it is.
#[derive(Clone)]
pub enum ChunkType {
    /// Only RHS exists
    Added,
    /// Only LHS exists
    Deleted,
}"#,
        r#"#![doc = syncdoc::module_doc!()]
#[syncdoc::omnidoc]
#[derive(Clone)]
pub struct Section {
    pub title: String,
}
#[syncdoc::omnidoc]
#[derive(Clone)]
pub enum ChunkType {
    Added,
    Deleted,
}"#,
    )
}

#[test]
fn preserves_blank_line_between_module_and_item_docs() {
    let original = r#"//! Module doc

/// Item doc
pub fn test() {}"#;

    let after = r#"#![doc = syncdoc::module_doc!()]

#[syncdoc::omnidoc]
pub fn test() {}"#;

    let hunks = compute_hunks(original, after);
    let result = apply_diff(original, &hunks, after);

    let lines: Vec<&str> = result.lines().collect();
    assert_eq!(lines.len(), 4, "Should have 4 lines");
    assert!(lines[0].contains("module_doc"), "Line 0 should be module doc");
    assert_eq!(lines[1].trim(), "", "Line 1 should be blank");
    assert!(lines[2].contains("omnidoc"), "Line 2 should be omnidoc");
    assert!(lines[3].contains("pub fn test"), "Line 3 should be function");
}

#[test]
fn restore_preserves_blank_line_between_module_and_item_docs() {
    let original = r#"#![doc = syncdoc::module_doc!()]

#[syncdoc::omnidoc]
pub fn test() {}"#;

    let after = r#"#[doc = "//! Module doc"]

#[doc = "/// Item doc"]
pub fn test() {}"#;

    let hunks = compute_hunks(original, after);
    let result = apply_diff_restore(original, &hunks, after);

    let lines: Vec<&str> = result.lines().collect();
    assert_eq!(lines.len(), 4, "Should have 4 lines");
    assert!(lines[0].starts_with("//!"), "Line 0 should be module doc comment");
    assert_eq!(lines[1].trim(), "", "Line 1 should be blank");
    assert!(lines[2].starts_with("///"), "Line 2 should be item doc comment");
    assert!(lines[3].contains("pub fn test"), "Line 3 should be function");
}

#[test]
fn restore_preserves_blank_line_and_correct_doc_order() {
    let original = r#"#![doc = syncdoc::module_doc!()]

#[syncdoc::omnidoc]
#[derive(Clone)]
pub struct Section {}"#;

    let after = r#"#[doc = "//! Section representation for tree-sitter parsed documents."]
#[doc = "//!"]
#[doc = "//! A section represents a hierarchical division of a document, typically"]
#[doc = "//! corresponding to a heading in markdown. Sections track their position"]
#[doc = "//! in the document tree through parent/child relationships and maintain"]
#[doc = "//! precise byte and line coordinates for content extraction and modification."]

#[doc = "/// Hierarchical document division with precise coordinates for extraction and modification."]
#[derive(Clone)]
pub struct Section {}"#;

    let hunks = compute_hunks(original, after);
    let result = apply_diff_restore(original, &hunks, after);

    let lines: Vec<&str> = result.lines().collect();
    let last_module_doc = lines
        .iter()
        .rposition(|l| l.starts_with("//!"))
        .expect("Should have module docs");
    let first_item_doc = lines
        .iter()
        .position(|l| l.starts_with("///"))
        .expect("Should have item docs");
    assert!(
        first_item_doc > last_module_doc + 1,
        "Item doc should come after module doc with space"
    );
    assert_eq!(
        lines[last_module_doc + 1].trim(),
        "",
        "Should have blank line after module docs"
    );
    let derive_line = lines
        .iter()
        .position(|l| l.contains("derive(Clone)"))
        .expect("Should have derive");
    assert!(
        first_item_doc < derive_line,
        "Item doc should come BEFORE #[derive], not after! Got item doc at {} and derive at {}",
        first_item_doc,
        derive_line
    );
}

#[test]
fn full_module_blank_line_handling() {
    let case = full_module_doc();
    let hunks = case.compute_hunks();
    let result = apply_diff(case.original, &hunks, case.transformed);

    let lines: Vec<&str> = result.lines().collect();
    let module_doc_idx = lines
        .iter()
        .position(|l| l.contains("module_doc"))
        .expect("Should have module_doc");
    assert!(module_doc_idx < lines.len());
}

#[test]
fn snapshot_blank_line_preservation() {
    let case = full_module_doc();
    let hunks = compute_hunks(case.original, case.transformed);
    let result = apply_diff(case.original, &hunks, case.transformed);

    assert_eq!(
        result.trim_end(),
        "#![doc = syncdoc::module_doc!()]

#[syncdoc::omnidoc]
#[derive(Clone)]
pub struct Section {
    pub title: String,
}

#[syncdoc::omnidoc]
#[derive(Clone)]
pub enum ChunkType {
    Added,
    Deleted,
}"
    );
}

#[test]
fn preserves_derive_attrs() {
    let original = r#"#[derive(Debug)]
/// Documentation
pub struct Test;"#;

    let transformed = r#"#[syncdoc::omnidoc]
pub struct Test;"#;

    let hunks = compute_hunks(original, transformed);
    let result = apply_diff(original, &hunks, transformed);

    assert!(result.contains("#[derive(Debug)]"), "Should preserve derive");
}

#[test]
fn preserves_multiple_non_doc_attrs() {
    let original = r#"#[derive(Debug, Clone)]
#[cfg(feature = "test")]
/// Documentation
pub struct Test;"#;

    let transformed = r#"#[syncdoc::omnidoc]
pub struct Test;"#;

    let hunks = compute_hunks(original, transformed);
    let result = apply_diff(original, &hunks, transformed);

    assert!(result.contains("derive"), "Should preserve derive");
    assert!(result.contains("cfg"), "Should preserve cfg");
}

#[test]
fn roundtrip_full_module_doc() {
    let case = full_module_doc();
    let original = case.original;
    let migrated = case.transformed;

    let migrate_hunks = compute_hunks(original, migrated);
    let migrate_result = apply_diff(original, &migrate_hunks, migrated);

    let restored_docs = original;
    let restore_hunks = compute_hunks(&migrate_result, restored_docs);
    let restore_result = apply_diff_restore(&migrate_result, &restore_hunks, restored_docs);

    let original_lines: Vec<&str> = original.lines().collect();
    let restored_lines: Vec<&str> = restore_result.lines().collect();
    assert_eq!(
        original_lines.len(),
        restored_lines.len(),
        "Line count should match after round-trip"
    );
}

#[test]
fn roundtrip_preserves_blank_after_module_doc() {
    let original = r#"//! Module doc

pub fn test() {}"#;

    let migrated = r#"#![doc = syncdoc::module_doc!()]

pub fn test() {}"#;

    let migrate_hunks = compute_hunks(original, migrated);
    let migrate_result = apply_diff(original, &migrate_hunks, migrated);

    let restored_docs = r#"//! Module doc

pub fn test() {}"#;

    let restore_hunks = compute_hunks(&migrate_result, restored_docs);
    let restore_result = apply_diff_restore(&migrate_result, &restore_hunks, restored_docs);

    let lines: Vec<&str> = restore_result.lines().collect();
    assert!(
        lines.len() >= 2 && lines[1].trim().is_empty(),
        "Should have blank line after module doc"
    );
}

#[test]
fn restore_real_bug_case_section_struct() {
    let original = r#"#![doc = syncdoc::module_doc!()]

#[syncdoc::omnidoc]
#[derive(Clone)]
pub struct Section {
    pub title: String,
    pub level: usize,
    pub line_start: i64,
    pub line_end: i64,
    pub column_start: i64,
    pub column_end: i64,
    pub byte_start: usize,
    pub byte_end: usize,
    pub file_path: String,
    pub parent_index: Option<usize>,
    pub children_indices: Vec<usize>,
    pub section_content: Option<Vec<String>>,
    pub chunk_type: Option<ChunkType>,
    pub lhs_content: Option<String>,
    pub rhs_content: Option<String>,
}

#[syncdoc::omnidoc]
#[derive(Clone)]
pub enum ChunkType {
    Added,
    Deleted,
    Modified,
    Unchanged,
}

#[syncdoc::omnidoc]
#[derive(Clone)]
pub enum NodeType {
    Directory { name: String, path: String },
    File { name: String, path: String },
    Section(Section),
}

#[syncdoc::omnidoc]
#[derive(Clone)]
pub struct TreeNode {
    pub node_type: NodeType,
    pub tree_level: usize,
    pub navigable: bool,
    pub section_index: Option<usize>,
}

impl TreeNode {
    #[syncdoc::omnidoc]
    #[must_use]
    pub fn directory(name: String, path: String, tree_level: usize) -> Self {
        Self {
            node_type: NodeType::Directory { name, path },
            tree_level,
            navigable: false,
            section_index: None,
        }
    }

    #[syncdoc::omnidoc]
    #[must_use]
    pub fn file(name: String, path: String, tree_level: usize) -> Self {
        Self {
            node_type: NodeType::File { name, path },
            tree_level,
            navigable: false,
            section_index: None,
        }
    }

    #[syncdoc::omnidoc]
    #[must_use]
    pub fn section(section: Section, tree_level: usize, section_index: usize) -> Self {
        Self {
            node_type: NodeType::Section(section),
            tree_level,
            navigable: true,
            section_index: Some(section_index),
        }
    }
}"#;

    // After restore, this is what the generated code looks like (with doc attributes)
    let after = r#"#[doc = "//! Section representation for tree-sitter parsed documents."]
#[doc = "//!"]
#[doc = "//! A section represents a hierarchical division of a document, typically"]
#[doc = "//! corresponding to a heading in markdown. Sections track their position"]
#[doc = "//! in the document tree through parent/child relationships and maintain"]
#[doc = "//! precise byte and line coordinates for content extraction and modification."]

#[doc = "/// Hierarchical document division with precise coordinates for extraction and modification."]
#[derive(Clone)]
pub struct Section {
    #[doc = "/// Section heading text without markup symbols."]
    pub title: String,
    #[doc = "/// Nesting depth in the document hierarchy (1 for top-level)."]
    pub level: usize,
    #[doc = "/// First line of section content (after the heading)."]
    pub line_start: i64,
    #[doc = "/// Line where the next section begins or file ends."]
    pub line_end: i64,
    #[doc = "/// Starting column of the section heading."]
    pub column_start: i64,
    #[doc = "/// Ending column of the section heading."]
    pub column_end: i64,
    #[doc = "/// Byte offset where section content begins."]
    pub byte_start: usize,
    #[doc = "/// Byte offset where section content ends."]
    pub byte_end: usize,
    #[doc = "/// Source file containing this section."]
    pub file_path: String,
    #[doc = "/// Index of the containing section in the hierarchy."]
    pub parent_index: Option<usize>,
    #[doc = "/// Indices of directly nested subsections."]
    pub children_indices: Vec<usize>,
    #[doc = "/// Edited content for this section (if modified)"]
    pub section_content: Option<Vec<String>>,
    #[doc = "/// The chunk type (for diffs)"]
    pub chunk_type: Option<ChunkType>,
    #[doc = "/// The LHS (for diffs)"]
    pub lhs_content: Option<String>,
    #[doc = "/// The RHS (for diffs)"]
    pub rhs_content: Option<String>,
}

#[doc = "/// What sort of hunk (syntactic diff atomic unit) it is."]
#[derive(Clone)]
pub enum ChunkType {
    #[doc = "/// Only RHS exists"]
    Added,
    #[doc = "/// Only LHS exists"]
    Deleted,
    #[doc = "/// Both LHS and RHS exist (and differ)"]
    Modified,
    #[doc = "/// Both LHS and RHS exist (and are the same, at least syntactically)"]
    Unchanged,
}

#[doc = "/// Types of nodes that can appear in the file tree view."]
#[derive(Clone)]
pub enum NodeType {
    #[doc = "/// Directory node showing a path component"]
    Directory {
        #[doc = "/// Directory name (not full path)"]
        name: String,
        #[doc = "/// Full path for reference"]
        path: String,
    },
    #[doc = "/// File node (non-navigable, just shows filename)"]
    File {
        #[doc = "/// File name"]
        name: String,
        #[doc = "/// Full path for reference"]
        path: String,
    },
    #[doc = "/// Actual document section (navigable)"]
    Section(Section),
}

#[doc = "/// A node in the unified file + section tree."]
#[derive(Clone)]
pub struct TreeNode {
    #[doc = "/// The type of node (directory, file, or section)"]
    pub node_type: NodeType,
    #[doc = "/// Nesting level in the tree (for indentation/box-drawing)"]
    pub tree_level: usize,
    #[doc = "/// Whether this node can be selected and edited"]
    pub navigable: bool,
    #[doc = "/// Index of the actual section if this is a Section node"]
    pub section_index: Option<usize>,
}

impl TreeNode {
    #[doc = "/// Create a directory node"]
    #[must_use]
    pub fn directory(name: String, path: String, tree_level: usize) -> Self {
        Self {
            node_type: NodeType::Directory { name, path },
            tree_level,
            navigable: false,
            section_index: None,
        }
    }

    #[doc = "/// Create a file node"]
    #[must_use]
    pub fn file(name: String, path: String, tree_level: usize) -> Self {
        Self {
            node_type: NodeType::File { name, path },
            tree_level,
            navigable: false,
            section_index: None,
        }
    }

    #[doc = "/// Create a section node"]
    #[must_use]
    pub fn section(section: Section, tree_level: usize, section_index: usize) -> Self {
        Self {
            node_type: NodeType::Section(section),
            tree_level,
            navigable: true,
            section_index: Some(section_index),
        }
    }
}"#;

    let hunks = compute_hunks(original, after);

    let result = apply_diff_restore(original, &hunks, after);

    let lines: Vec<&str> = result.lines().collect();

    // Find critical positions
    let last_module_doc = lines
        .iter()
        .rposition(|l| l.starts_with("//!"))
        .expect("Should have module docs");

    let first_item_doc = lines
        .iter()
        .position(|l| l.starts_with("///"))
        .expect("Should have item docs");

    let derive_line = lines
        .iter()
        .position(|l| l.contains("#[derive(Clone)]"))
        .expect("Should have derive");

    // CRITICAL ASSERTIONS
    assert!(
        lines[last_module_doc + 1].trim().is_empty(),
        "Should have blank line after module docs at line {}",
        last_module_doc + 1
    );

    assert!(
        first_item_doc < derive_line,
        "Item doc (line {}) should come BEFORE #[derive] (line {})",
        first_item_doc,
        derive_line
    );
}

#[test]
fn identical_texts_have_no_hunks() {
    let text = "//! doc\n\npub fn f() {}\n";
    assert!(compute_line_diff(text, text).is_empty());
    for h in compute_line_diff("a\nb\nc", "a\nx\nc\nd") {
        assert!(h.before_count > 0 || h.after_count > 0);
    }
}

#[test]
fn non_doc_changes_give_the_original_back() {
    let original = "/// kept\nfn a() {}\n\nfn b() {}\n";
    let after = "/// kept\nfn a() {}\n\nfn c() {}\n";
    let hunks = compute_hunks(original, after);
    assert!(!hunks.is_empty());
    assert_eq!(apply_diff(original, &hunks, after), original.lines().collect::<Vec<_>>().join("\n"));
    let restore_original = "#[doc = \"/// x\"]\nfn a() {}\n";
    let restore_after = "#[doc = \"/// x\"]\nfn z() {}\n";
    let hunks = compute_hunks(restore_original, restore_after);
    assert_eq!(
        apply_diff_restore(restore_original, &hunks, restore_after),
        "/// x\nfn a() {}"
    );
}

#[test]
fn migration_keeps_each_attribute_and_comment_once() {
    let original = "// note\n#[derive(Debug)]\n/// Doc\npub struct A;\n\n#[derive(Debug)]\n/// Doc B\npub struct B;\n";
    let after = "// note\n#[derive(Debug)]\n#[syncdoc::omnidoc]\npub struct A;\n\n#[derive(Debug)]\n#[syncdoc::omnidoc]\npub struct B;\n";
    let hunks = compute_hunks(original, after);
    let result = apply_diff(original, &hunks, after);
    for l in ["// note", "#[derive(Debug)]"] {
        assert_eq!(
            result.lines().filter(|x| *x == l).count(),
            original.lines().filter(|x| *x == l).count()
        );
    }
}
