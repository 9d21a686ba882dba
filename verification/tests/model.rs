use syncdoc_migrate::config::DocsPathMode;
use syncdoc_migrate::discover::{add_docs_path_config, ParsedFile};
use syncdoc_migrate::extract::{Attribute, InnerAttribute};
use syncdoc_migrate::restore::inject::{
    generate_doc_comments, generate_module_doc_comments, inject_all_doc_comments,
    is_module_doc_macro, is_omnidoc_attr, read_item_markdown,
};
use syncdoc_migrate::restore::restore_file;
use syncdoc_migrate::rewrite::reformat::{ReformatAction, ReformatJob};
use syncdoc_migrate::rewrite::rewrite_file;
use syncdoc_migrate::rewrite::strip::{
    strip_doc_attrs_from_attr_list, strip_doc_attrs_from_items, strip_inner_doc_attrs,
};
use syncdoc_migrate::syntax::{
    print_content, EnumDef, Field, ImplBlock, ModuleContent, ModuleItem, Scope, Signature,
    StructBody, StructDef, Variant,
};
use syncdoc_migrate::write::expected::find_expected_doc_paths;
use syncdoc_migrate::write::{
    extract_all_docs, module_doc_path_of, DocExtraction, WriteOutcome, WriteReport,
};

fn attrs(sources: &[&str]) -> Option<Vec<Attribute>> {
    if sources.is_empty() {
        None
    } else {
        Some(
            sources
                .iter()
                .map(|s| Attribute::from_source(s).unwrap())
                .collect(),
        )
    }
}

fn inner(sources: &[&str]) -> Option<Vec<InnerAttribute>> {
    if sources.is_empty() {
        None
    } else {
        Some(
            sources
                .iter()
                .map(|s| InnerAttribute::from_source(s).unwrap())
                .collect(),
        )
    }
}

fn sig(docs: &[&str], head: &str, name: &str, tail: &str, line: usize) -> Signature {
    Signature {
        attrs: attrs(docs),
        head: head.to_string(),
        name: name.to_string(),
        tail: tail.to_string(),
        line,
    }
}

fn function(docs: &[&str], name: &str, line: usize) -> ModuleItem {
    ModuleItem::Function(sig(docs, "pub fn", name, "() { }", line))
}

fn field(docs: &[&str], name: &str, ty: &str, line: usize) -> Field {
    Field {
        attrs: attrs(docs),
        visibility: "pub".to_string(),
        name: name.to_string(),
        field_type: ty.to_string(),
        line,
    }
}

fn variant(docs: &[&str], name: &str, line: usize) -> Variant {
    Variant {
        attrs: attrs(docs),
        name: name.to_string(),
        data: None,
        line,
    }
}

fn module(docs: &[&str], name: &str, items: Vec<ModuleItem>, line: usize) -> ModuleItem {
    ModuleItem::Module(Scope {
        attrs: attrs(docs),
        head: "pub mod".to_string(),
        name: name.to_string(),
        generics: String::new(),
        body: ModuleContent {
            inner_attrs: None,
            items,
        },
        line,
    })
}

fn file(path: &str, inner_attrs: &[&str], items: Vec<ModuleItem>) -> ParsedFile {
    ParsedFile {
        path: path.to_string(),
        mod_path: String::new(),
        content: ModuleContent {
            inner_attrs: inner(inner_attrs),
            items,
        },
        original_source: String::new(),
    }
}

fn paths(extractions: &[DocExtraction]) -> Vec<String> {
    extractions.iter().map(|e| e.markdown_path.clone()).collect()
}

#[test]
fn doc_extraction_adds_final_newline() {
    let e = DocExtraction::new("a.md".to_string(), "text".to_string(), "f.rs:1".to_string());
    assert_eq!(e.content, "text\n");
    let e = DocExtraction::new("a.md".to_string(), "text\n".to_string(), "f.rs:1".to_string());
    assert_eq!(e.content, "text\n");
    let e = DocExtraction::new("a.md".to_string(), String::new(), "f.rs:1".to_string());
    assert_eq!(e.content, "\n");
}

#[test]
fn extracts_nested_module_paths() {
    let parsed = file(
        "test.rs",
        &[],
        vec![module(
            &[],
            "outer",
            vec![module(
                &[],
                "inner",
                vec![function(&["/// Documentation for nested function"], "nested_func", 5)],
                3,
            )],
            2,
        )],
    );
    let extractions = extract_all_docs(&parsed, "docs");
    assert_eq!(extractions.len(), 1);
    assert_eq!(extractions[0].markdown_path, "docs/outer/inner/nested_func.md");
    assert_eq!(extractions[0].content, "Documentation for nested function\n");
    assert_eq!(extractions[0].source_location, "test.rs:5");
}

#[test]
fn extracts_impl_method_and_trait_impl_paths() {
    let impl_block = ModuleItem::ImplBlock(ImplBlock {
        attrs: None,
        head: "impl MyType".to_string(),
        target_ident: Some("MyType".to_string()),
        has_for: false,
        for_ident: None,
        body: ModuleContent {
            inner_attrs: None,
            items: vec![function(&["/// Method documentation"], "my_method", 12)],
        },
    });
    let trait_impl = ModuleItem::ImplBlock(ImplBlock {
        attrs: None,
        head: "impl Display for Config".to_string(),
        target_ident: Some("Display".to_string()),
        has_for: true,
        for_ident: Some("Config".to_string()),
        body: ModuleContent {
            inner_attrs: None,
            items: vec![function(&["/// Formats it"], "fmt", 20)],
        },
    });
    let generic_impl = ModuleItem::ImplBlock(ImplBlock {
        attrs: None,
        head: "impl < T > Wrapper < T >".to_string(),
        target_ident: None,
        has_for: false,
        for_ident: None,
        body: ModuleContent {
            inner_attrs: None,
            items: vec![function(&["/// New"], "new", 30)],
        },
    });
    let parsed = file("test.rs", &[], vec![impl_block, trait_impl, generic_impl]);
    assert_eq!(
        paths(&extract_all_docs(&parsed, "docs")),
        vec![
            "docs/MyType/my_method.md",
            "docs/Config/Display/fmt.md",
            "docs/Unknown/new.md"
        ]
    );
}

#[test]
fn extracts_enum_variant_and_module_docs() {
    let e = ModuleItem::Enum(EnumDef {
        attrs: attrs(&["/// An enum"]),
        head: "pub enum".to_string(),
        name: "MyEnum".to_string(),
        generics: String::new(),
        variants: Some(vec![
            variant(&["/// First variant"], "Variant1", 4),
            variant(&["/// Second variant"], "Variant2", 6),
        ]),
        line: 2,
    });
    let parsed = file("src/test.rs", &["//! The module"], vec![e]);
    let extractions = extract_all_docs(&parsed, "docs");
    assert_eq!(
        paths(&extractions),
        vec![
            "docs/test.md",
            "docs/MyEnum.md",
            "docs/MyEnum/Variant1.md",
            "docs/MyEnum/Variant2.md"
        ]
    );
    assert_eq!(extractions[0].content, "The module\n");
    assert_eq!(extractions[0].source_location, "src/test.rs:1");
    assert_eq!(extractions[1].content, "An enum\n");
    assert_eq!(extractions[2].content, "First variant\n");
    assert_eq!(extractions[3].source_location, "src/test.rs:6");
}

#[test]
fn extracts_struct_fields_and_skips_undocumented() {
    let s = ModuleItem::Struct(StructDef {
        attrs: attrs(&["#[derive(Debug)]"]),
        head: "pub struct".to_string(),
        name: "Config".to_string(),
        generics: String::new(),
        body: StructBody::Named(Some(vec![
            field(&["/// The port"], "port", "u16", 3),
            field(&[], "host", "String", 4),
        ])),
        line: 2,
    });
    let parsed = file("test.rs", &[], vec![s, ModuleItem::Other("use a ;".to_string())]);
    let extractions = extract_all_docs(&parsed, "docs");
    assert_eq!(paths(&extractions), vec!["docs/Config/port.md"]);
    assert_eq!(extractions[0].content, "The port\n");
}

#[test]
fn expected_paths_for_lib_rs() {
    let e = ModuleItem::Enum(EnumDef {
        attrs: None,
        head: "pub enum".to_string(),
        name: "TimeOfDay".to_string(),
        generics: String::new(),
        variants: Some(vec![variant(&[], "Day", 3), variant(&[], "Night", 4)]),
        line: 2,
    });
    let parsed = file("/tmp/x/lib.rs", &[], vec![e]);
    let expected = find_expected_doc_paths(&parsed, "docs");
    assert_eq!(
        paths(&expected),
        vec![
            "docs/lib.md",
            "docs/TimeOfDay.md",
            "docs/TimeOfDay/Day.md",
            "docs/TimeOfDay/Night.md"
        ]
    );
    assert!(expected.iter().all(|e| e.content == "\n"));
    assert_eq!(expected[0].source_location, "/tmp/x/lib.rs:1");
}

#[test]
fn expected_paths_include_trait_methods_not_other_items() {
    let t = ModuleItem::Trait(Scope {
        attrs: None,
        head: "trait".to_string(),
        name: "MyTrait".to_string(),
        generics: String::new(),
        body: ModuleContent {
            inner_attrs: None,
            items: vec![
                ModuleItem::TraitMethod(sig(&[], "fn", "required", "() ;", 3)),
                function(&[], "with_default", 4),
            ],
        },
        line: 2,
    });
    let ext = ModuleItem::Other("extern \"C\" { fn external_fn () ; }".to_string());
    let parsed = file("test.rs", &[], vec![t, ext]);
    assert_eq!(
        paths(&find_expected_doc_paths(&parsed, "docs")),
        vec![
            "docs/test.md",
            "docs/MyTrait.md",
            "docs/MyTrait/required.md",
            "docs/MyTrait/with_default.md"
        ]
    );
}

#[test]
fn extracted_paths_are_expected_paths() {
    let parsed = file(
        "src/api.rs",
        &["//! Api"],
        vec![
            function(&["/// f"], "f", 3),
            module(&["/// m"], "m", vec![function(&["/// g"], "g", 6)], 5),
        ],
    );
    let extracted = extract_all_docs(&parsed, "docs");
    let expected = find_expected_doc_paths(&parsed, "docs");
    for e in &extracted {
        assert!(expected
            .iter()
            .any(|x| x.markdown_path == e.markdown_path && x.source_location == e.source_location));
    }
    assert_eq!(extracted.len(), 4);
}

#[test]
fn module_doc_path_uses_module_path_when_set() {
    let mut parsed = file("src/api/v1.rs", &[], vec![]);
    assert_eq!(module_doc_path_of(&parsed, "docs"), "docs/v1.md");
    parsed.mod_path = "api/v1".to_string();
    assert_eq!(module_doc_path_of(&parsed, "docs"), "docs/api/v1.md");
    let nameless = file("..", &[], vec![]);
    assert_eq!(module_doc_path_of(&nameless, "docs"), "docs/module.md");
}

#[test]
fn strip_removes_docs_and_keeps_other_attributes() {
    let s = ModuleItem::Struct(StructDef {
        attrs: attrs(&["/// A struct", "#[derive(Debug)]", "#[cfg_attr(doc, doc = \"x\")]"]),
        head: "pub struct".to_string(),
        name: "S".to_string(),
        generics: String::new(),
        body: StructBody::Named(Some(vec![
            field(&["/// a", "#[serde(skip)]"], "a", "u8", 3),
            field(&[], "b", "u8", 4),
        ])),
        line: 2,
    });
    let content = ModuleContent {
        inner_attrs: inner(&["//! Module", "#![allow(dead_code)]"]),
        items: vec![s, function(&["/// f"], "f", 6)],
    };
    let text: String = strip_doc_attrs_from_items(&content).into_iter().collect();
    assert_eq!(
        text,
        "# ! [allow (dead_code)] # [derive (Debug)] pub struct S  { # [serde (skip)] pub a : u8 , pub b : u8 } pub fn f () { } "
    );
}

#[test]
fn strip_keeps_non_doc_variant_attributes() {
    let mut v = variant(&["/// first", "#[default]"], "A", 3);
    v.data = Some(syncdoc_migrate::syntax::VariantData::Other("(u8)".to_string()));
    let e = ModuleItem::Enum(EnumDef {
        attrs: None,
        head: "enum".to_string(),
        name: "E".to_string(),
        generics: String::new(),
        variants: Some(vec![v, variant(&[], "B", 4)]),
        line: 2,
    });
    let content = ModuleContent {
        inner_attrs: None,
        items: vec![e],
    };
    let text: String = strip_doc_attrs_from_items(&content).into_iter().collect();
    assert_eq!(text, "enum E  { # [default] A (u8) , B } ");
}

#[test]
fn strip_keeps_cfg_attr_without_doc() {
    let f = function(
        &[
            "#[cfg_attr(feature = \"serde\", derive(Debug))]",
            "#[cfg_attr(docsrs, doc = \"hidden\")]",
            "/// f",
        ],
        "f",
        1,
    );
    let content = ModuleContent {
        inner_attrs: None,
        items: vec![f],
    };
    let text: String = strip_doc_attrs_from_items(&content).into_iter().collect();
    assert!(text.contains("cfg_attr"));
    assert!(text.contains("derive"));
    assert!(!text.contains("docsrs"));
    assert!(!text.contains("hidden"));
}

#[test]
fn strip_attribute_lists() {
    let kept = strip_doc_attrs_from_attr_list(&attrs(&["/// a", "#[inline]"]));
    assert_eq!(kept.len(), 1);
    assert_eq!(kept[0].tokens, "# [inline]");
    assert!(strip_doc_attrs_from_attr_list(&None).is_empty());
    let kept_inner = strip_inner_doc_attrs(&inner(&["#![doc = \"x\"]", "#![deny(warnings)]"]));
    assert_eq!(kept_inner.len(), 1);
    assert_eq!(kept_inner[0].tokens, "# ! [deny (warnings)]");
}

#[test]
fn print_content_reprints_items() {
    let content = ModuleContent {
        inner_attrs: inner(&["#![allow(x)]"]),
        items: vec![function(&["#[inline]"], "f", 1)],
    };
    let text: String = print_content(&content).into_iter().collect();
    assert_eq!(text, "# ! [allow (x)] # [inline] pub fn f () { } ");
}

#[test]
fn restore_generates_doc_comments() {
    let docs: String = generate_doc_comments("Line one\nLine two\n\n").into_iter().collect();
    assert_eq!(
        docs,
        "# [doc = \"/// Line one\"] # [doc = \"/// Line two\"] "
    );
    let module_docs: String = generate_module_doc_comments("A \"quoted\" word")
        .into_iter()
        .collect();
    assert_eq!(module_docs, "# [doc = \"//! A \\\"quoted\\\" word\"] ");
}

#[test]
fn restore_replaces_omnidoc_with_markdown() {
    let f = ModuleItem::Function(sig(
        &["#[syncdoc::omnidoc]", "#[inline]"],
        "pub fn",
        "f",
        "() { }",
        3,
    ));
    let parsed = file("src/lib.rs", &["#![doc = syncdoc::module_doc!()]", "#![allow(x)]"], vec![f]);
    let docs = vec![
        ("docs/lib.md".to_string(), "Crate docs\n".to_string()),
        ("docs/f.md".to_string(), "Does f.\n".to_string()),
    ];
    let text: String = inject_all_doc_comments(&parsed, "docs", &docs)
        .into_iter()
        .collect();
    assert_eq!(
        text,
        "# [doc = \"//! Crate docs\"] # ! [allow (x)] # [doc = \"/// Does f.\"] # [inline] pub fn f () { } "
    );
    let (job, action) = restore_file(&parsed, "docs", &docs);
    assert!(matches!(action, ReformatAction::Format(ref s) if s.is_empty()));
    match job {
        ReformatJob::AwaitOriginal { transformed, restore } => {
            assert!(restore);
            assert_eq!(transformed, text);
        }
        _ => panic!("restore starts by formatting the original"),
    }
}

#[test]
fn restore_without_markdown_keeps_item_bare() {
    let parsed = file("x.rs", &[], vec![function(&["#[omnidoc]"], "g", 1)]);
    let text: String = inject_all_doc_comments(&parsed, "docs", &vec![])
        .into_iter()
        .collect();
    assert_eq!(text, "pub fn g () { } ");
    assert_eq!(
        read_item_markdown(&vec!["a".to_string()], &"b".to_string(), "docs", &vec![(
            "docs/a/b.md".to_string(),
            "B".to_string()
        )]),
        Some("B".to_string())
    );
}

#[test]
fn omnidoc_and_module_doc_detection() {
    assert!(is_omnidoc_attr(&Attribute::from_source("#[syncdoc::omnidoc(path = \"d\")]").unwrap()));
    assert!(!is_omnidoc_attr(&Attribute::from_source("#[derive(Debug)]").unwrap()));
    assert!(is_module_doc_macro(&vec![
        InnerAttribute::from_source("#![allow(x)]").unwrap(),
        InnerAttribute::from_source("#![doc = syncdoc::module_doc!()]").unwrap(),
    ]));
    assert!(!is_module_doc_macro(&vec![]));
}

#[test]
fn rewrite_needs_an_operation() {
    let parsed = file("x.rs", &[], vec![function(&["/// f"], "f", 1)]);
    assert!(rewrite_file(&parsed, "docs", DocsPathMode::TomlConfig, false, false).is_none());
}

#[test]
fn rewrite_strips_and_annotates() {
    let mut parsed = file(
        "x.rs",
        &["//! Module docs"],
        vec![
            function(&["/// f"], "f", 2),
            ModuleItem::TraitMethod(sig(&["/// m"], "fn", "m", "() ;", 3)),
            ModuleItem::Other("use a ;".to_string()),
        ],
    );
    parsed.original_source = "original text".to_string();
    let (job, action) =
        rewrite_file(&parsed, "docs", DocsPathMode::InlinePaths, true, true).unwrap();
    assert!(matches!(action, ReformatAction::Format(ref s) if s == "original text"));
    match job {
        ReformatJob::AwaitOriginal { transformed, restore } => {
            assert!(!restore);
            assert_eq!(
                transformed,
                "# ! [doc = syncdoc :: module_doc ! (path = \"docs\")] # [syncdoc :: omnidoc (path = \"docs\")] pub fn f () { } fn m () ; use a ; "
            );
        }
        _ => panic!("rewrite starts by formatting the original"),
    }
}

#[test]
fn rewrite_strip_only() {
    let parsed = file("x.rs", &[], vec![function(&["/// f", "#[inline]"], "f", 2)]);
    let (job, _) = rewrite_file(&parsed, "docs", DocsPathMode::TomlConfig, true, false).unwrap();
    match job {
        ReformatJob::AwaitOriginal { transformed, .. } => {
            assert_eq!(transformed, "# [inline] pub fn f () { } ")
        }
        _ => panic!("rewrite starts by formatting the original"),
    }
}

#[test]
fn rewrite_annotate_keeps_existing_annotations() {
    let parsed = file(
        "x.rs",
        &[],
        vec![function(&["#[syncdoc::omnidoc]"], "f", 2)],
    );
    let (job, _) = rewrite_file(&parsed, "docs", DocsPathMode::TomlConfig, false, true).unwrap();
    match job {
        ReformatJob::AwaitOriginal { transformed, .. } => {
            assert_eq!(transformed, "# [syncdoc :: omnidoc] pub fn f () { } ")
        }
        _ => panic!("rewrite starts by formatting the original"),
    }
}

#[test]
fn write_report_counts() {
    let mut report = WriteReport::default();
    report.record(WriteOutcome::Written);
    report.record(WriteOutcome::WriteFailed("no space".to_string()));
    report.record(WriteOutcome::DirFailed("no dir".to_string()));
    assert_eq!(report.files_written, 1);
    assert_eq!(report.files_skipped, 1);
    assert_eq!(report.errors, vec!["no space".to_string(), "no dir".to_string()]);
}

#[test]
fn docs_path_config_is_added_once() {
    let added = add_docs_path_config("[package]\nname = \"x\"\n").unwrap();
    assert_eq!(
        added,
        "[package]\nname = \"x\"\n\n[package.metadata.syncdoc]\ndocs-path = \"docs\"\n"
    );
    assert!(add_docs_path_config(&added).is_none());
}

// Restoring: the injected token text handed to the formatter. Every check
// below reads what the restore writes before formatting; doc comments stand
// as `#[doc = "/// ..."]` attributes there.

const OMNIDOC: &str = "#[syncdoc::omnidoc]";

fn restored(items: Vec<ModuleItem>, inner_attrs: &[&str], docs: &[(&str, &str)]) -> String {
    let parsed = file("test.rs", inner_attrs, items);
    let docs: Vec<(String, String)> = docs
        .iter()
        .map(|(p, c)| (format!("docs/{}", p), c.to_string()))
        .collect();
    inject_all_doc_comments(&parsed, "docs", &docs).into_iter().collect()
}

fn plain_struct(attr_list: &[&str], name: &str, fields: Vec<Field>) -> ModuleItem {
    ModuleItem::Struct(StructDef {
        attrs: attrs(attr_list),
        head: "pub struct".to_string(),
        name: name.to_string(),
        generics: String::new(),
        body: StructBody::Named(Some(fields)),
        line: 2,
    })
}

#[test]
fn test_restore_module_level_docs() {
    let restored = restored(
        vec![function(&[], "test", 4)],
        &["#![doc = syncdoc::module_doc!()]"],
        &[("test.md", "Module documentation\n")],
    );
    assert!(restored.contains("//! Module documentation"));
    assert!(!restored.contains("module_doc!"));
}

#[test]
fn test_restore_struct_with_fields() {
    let s = plain_struct(
        &[OMNIDOC],
        "MyStruct",
        vec![field(&[], "field_a", "i32", 3), field(&[], "field_b", "String", 4)],
    );
    let restored = restored(
        vec![s],
        &[],
        &[
            ("MyStruct.md", "A struct\n"),
            ("MyStruct/field_a.md", "Field A\n"),
            ("MyStruct/field_b.md", "Field B\n"),
        ],
    );
    assert!(restored.contains("/// A struct"));
    assert!(restored.contains("/// Field A"));
    assert!(restored.contains("/// Field B"));
    assert!(!restored.contains("omnidoc"));
}

#[test]
fn test_restore_enum_with_variants() {
    let mut b = variant(&[], "VariantB", 5);
    b.data = Some(syncdoc_migrate::syntax::VariantData::Other("(i32)".to_string()));
    let e = ModuleItem::Enum(EnumDef {
        attrs: attrs(&[OMNIDOC]),
        head: "pub enum".to_string(),
        name: "MyEnum".to_string(),
        generics: String::new(),
        variants: Some(vec![variant(&[], "VariantA", 4), b]),
        line: 3,
    });
    let restored = restored(
        vec![e],
        &[],
        &[
            ("MyEnum.md", "An enum\n"),
            ("MyEnum/VariantA.md", "Variant A\n"),
            ("MyEnum/VariantB.md", "Variant B\n"),
        ],
    );
    assert!(restored.contains("/// An enum"));
    assert!(restored.contains("/// Variant A"));
    assert!(restored.contains("/// Variant B"));
    assert!(!restored.contains("omnidoc"));
}

#[test]
fn test_restore_nested_module() {
    let m = module(&[OMNIDOC], "outer", vec![function(&[], "inner_fn", 4)], 3);
    let restored = restored(
        vec![m],
        &[],
        &[("outer.md", "Outer module\n"), ("outer/inner_fn.md", "Inner function\n")],
    );
    assert!(restored.contains("/// Outer module"));
    assert!(restored.contains("/// Inner function"));
    assert!(!restored.contains("omnidoc"));
}

#[test]
fn test_restore_impl_block() {
    let b = ModuleItem::ImplBlock(ImplBlock {
        attrs: attrs(&[OMNIDOC]),
        head: "impl MyStruct".to_string(),
        target_ident: Some("MyStruct".to_string()),
        has_for: false,
        for_ident: None,
        body: ModuleContent {
            inner_attrs: None,
            items: vec![function(&[], "new", 4), function(&[], "method", 8)],
        },
    });
    let restored = restored(
        vec![b],
        &[],
        &[("MyStruct/new.md", "Constructor\n"), ("MyStruct/method.md", "A method\n")],
    );
    assert!(restored.contains("/// Constructor"));
    assert!(restored.contains("/// A method"));
    assert!(!restored.contains("omnidoc"));
}

#[test]
fn test_restore_trait_impl() {
    let b = ModuleItem::ImplBlock(ImplBlock {
        attrs: attrs(&[OMNIDOC]),
        head: "impl Display for MyStruct".to_string(),
        target_ident: Some("Display".to_string()),
        has_for: true,
        for_ident: Some("MyStruct".to_string()),
        body: ModuleContent {
            inner_attrs: None,
            items: vec![function(&[], "fmt", 4)],
        },
    });
    let restored = restored(
        vec![b],
        &[],
        &[("MyStruct/Display/fmt.md", "Format implementation\n")],
    );
    assert!(restored.contains("/// Format implementation"));
    assert!(!restored.contains("omnidoc"));
}

#[test]
fn test_restore_trait_definition() {
    let t = ModuleItem::Trait(Scope {
        attrs: attrs(&[OMNIDOC]),
        head: "pub trait".to_string(),
        name: "MyTrait".to_string(),
        generics: String::new(),
        body: ModuleContent {
            inner_attrs: None,
            items: vec![
                ModuleItem::TraitMethod(sig(&[], "fn", "required", "(& self) ;", 4)),
                ModuleItem::TraitMethod(sig(&[], "fn", "default_method", "(& self) { }", 6)),
            ],
        },
        line: 3,
    });
    let restored = restored(
        vec![t],
        &[],
        &[
            ("MyTrait.md", "A trait\n"),
            ("MyTrait/required.md", "Required method\n"),
            ("MyTrait/default_method.md", "Default method\n"),
        ],
    );
    assert!(restored.contains("/// A trait"));
    assert!(restored.contains("/// Required method"));
    assert!(restored.contains("/// Default method"));
    assert!(!restored.contains("omnidoc"));
}

#[test]
fn test_restore_multiline_docs() {
    let restored = restored(
        vec![function(&[OMNIDOC], "test", 3)],
        &[],
        &[("test.md", "Line 1\nLine 2\nLine 3\n")],
    );
    assert!(restored.contains("/// Line 1"));
    assert!(restored.contains("/// Line 2"));
    assert!(restored.contains("/// Line 3"));
}

#[test]
fn test_restore_enum_struct_variant() {
    let mut v = variant(&[], "StructVariant", 4);
    v.data = Some(syncdoc_migrate::syntax::VariantData::Struct(Some(vec![
        field(&[], "field_a", "i32", 5),
        field(&[], "field_b", "String", 6),
    ])));
    let e = ModuleItem::Enum(EnumDef {
        attrs: attrs(&[OMNIDOC]),
        head: "pub enum".to_string(),
        name: "MyEnum".to_string(),
        generics: String::new(),
        variants: Some(vec![v]),
        line: 3,
    });
    let restored = restored(
        vec![e],
        &[],
        &[
            ("MyEnum.md", "An enum\n"),
            ("MyEnum/StructVariant.md", "A struct variant\n"),
            ("MyEnum/StructVariant/field_a.md", "Field A\n"),
            ("MyEnum/StructVariant/field_b.md", "Field B\n"),
        ],
    );
    assert!(restored.contains("/// An enum"));
    assert!(restored.contains("/// A struct variant"));
    assert!(restored.contains("/// Field A"));
    assert!(restored.contains("/// Field B"));
    assert!(!restored.contains("omnidoc"));
}

// Extraction paths, on the models of the files the original parses.

#[test]
fn tests_test_extract_nested_module_paths() {
    let parsed = file(
        "test.rs",
        &[],
        vec![module(
            &[],
            "outer",
            vec![module(
                &[],
                "inner",
                vec![function(&["/// Documentation for nested function"], "nested_func", 5)],
                3,
            )],
            2,
        )],
    );
    let extractions = extract_all_docs(&parsed, "docs");
    assert!(!extractions.is_empty());
    let func_extraction = extractions
        .iter()
        .find(|e| e.markdown_path.contains("nested_func"))
        .expect("Should find nested_func extraction");
    assert_eq!(func_extraction.markdown_path, "docs/outer/inner/nested_func.md");
}

#[test]
fn tests_test_extract_impl_method_paths() {
    let s = ModuleItem::Struct(StructDef {
        attrs: None,
        head: "struct".to_string(),
        name: "MyType".to_string(),
        generics: String::new(),
        body: StructBody::Unit,
        line: 2,
    });
    let b = ModuleItem::ImplBlock(ImplBlock {
        attrs: None,
        head: "impl MyType".to_string(),
        target_ident: Some("MyType".to_string()),
        has_for: false,
        for_ident: None,
        body: ModuleContent {
            inner_attrs: None,
            items: vec![function(&["/// Method documentation"], "my_method", 6)],
        },
    });
    let parsed = file("test.rs", &[], vec![s, b]);
    let extractions = extract_all_docs(&parsed, "docs");
    let method_extraction = extractions
        .iter()
        .find(|e| e.markdown_path.contains("my_method"))
        .expect("Should find my_method extraction");
    assert_eq!(method_extraction.markdown_path, "docs/MyType/my_method.md");
}

// Expected documentation files, on the models of the files the original
// parses; the expected paths are those of its brace-compressed snapshots.

fn expected_paths(parsed: &ParsedFile) -> Vec<String> {
    let mut p = paths(&find_expected_doc_paths(parsed, "docs"));
    p.sort();
    p
}

fn sorted(v: &[&str]) -> Vec<String> {
    let mut v: Vec<String> = v.iter().map(|s| s.to_string()).collect();
    v.sort();
    v
}

fn unit_struct(name: &str) -> ModuleItem {
    ModuleItem::Struct(StructDef {
        attrs: None,
        head: "pub struct".to_string(),
        name: name.to_string(),
        generics: String::new(),
        body: StructBody::Unit,
        line: 2,
    })
}

fn impl_of(target: &str, trait_name: Option<&str>, items: Vec<ModuleItem>) -> ModuleItem {
    ModuleItem::ImplBlock(ImplBlock {
        attrs: None,
        head: "impl".to_string(),
        target_ident: Some(trait_name.unwrap_or(target).to_string()),
        has_for: trait_name.is_some(),
        for_ident: trait_name.map(|_| target.to_string()),
        body: ModuleContent {
            inner_attrs: None,
            items,
        },
    })
}

fn trait_of(name: &str, methods: &[&str]) -> ModuleItem {
    ModuleItem::Trait(Scope {
        attrs: None,
        head: "pub trait".to_string(),
        name: name.to_string(),
        generics: String::new(),
        body: ModuleContent {
            inner_attrs: None,
            items: methods
                .iter()
                .map(|m| ModuleItem::TraitMethod(sig(&[], "fn", m, "(& self) ;", 3)))
                .collect(),
        },
        line: 2,
    })
}

#[test]
fn expected_tests_test_find_expected_simple_function() {
    let parsed = file("test.rs", &[], vec![function(&[], "my_function", 2)]);
    let expected = find_expected_doc_paths(&parsed, "docs");
    assert_eq!(expected.len(), 2);
    assert_eq!(expected_paths(&parsed), sorted(&["docs/test.md", "docs/my_function.md"]));
    assert!(expected.iter().all(|e| e.content == "\n"));
}

#[test]
fn expected_tests_test_find_expected_struct_with_fields() {
    let s = plain_struct(
        &[],
        "Config",
        vec![
            field(&[], "port", "u16", 3),
            field(&[], "host", "String", 4),
            field(&[], "timeout", "u64", 5),
        ],
    );
    let parsed = file("test.rs", &[], vec![s]);
    assert_eq!(find_expected_doc_paths(&parsed, "docs").len(), 5);
    assert_eq!(
        expected_paths(&parsed),
        sorted(&[
            "docs/test.md",
            "docs/Config/port.md",
            "docs/Config/host.md",
            "docs/Config/timeout.md",
            "docs/Config.md"
        ])
    );
}

#[test]
fn expected_tests_test_find_expected_enum_with_variants() {
    let e = ModuleItem::Enum(EnumDef {
        attrs: None,
        head: "pub enum".to_string(),
        name: "Status".to_string(),
        generics: String::new(),
        variants: Some(vec![
            variant(&[], "Active", 3),
            variant(&[], "Inactive", 4),
            variant(&[], "Error", 5),
        ]),
        line: 2,
    });
    let parsed = file("test.rs", &[], vec![e]);
    assert_eq!(find_expected_doc_paths(&parsed, "docs").len(), 5);
    assert_eq!(
        expected_paths(&parsed),
        sorted(&[
            "docs/test.md",
            "docs/Status/Active.md",
            "docs/Status/Inactive.md",
            "docs/Status/Error.md",
            "docs/Status.md"
        ])
    );
}

#[test]
fn expected_tests_test_find_expected_impl_block() {
    let parsed = file(
        "test.rs",
        &[],
        vec![
            unit_struct("Calculator"),
            impl_of(
                "Calculator",
                None,
                vec![
                    function(&[], "new", 5),
                    function(&[], "add", 9),
                    function(&[], "subtract", 13),
                ],
            ),
        ],
    );
    assert_eq!(find_expected_doc_paths(&parsed, "docs").len(), 5);
    assert_eq!(
        expected_paths(&parsed),
        sorted(&[
            "docs/test.md",
            "docs/Calculator/new.md",
            "docs/Calculator/add.md",
            "docs/Calculator/subtract.md",
            "docs/Calculator.md"
        ])
    );
}

#[test]
fn expected_tests_test_find_expected_nested_module() {
    let m = module(
        &[],
        "outer",
        vec![
            module(&[], "inner", vec![function(&[], "nested_func", 4)], 3),
            function(&[], "outer_func", 6),
        ],
        2,
    );
    let parsed = file("test.rs", &[], vec![m]);
    assert_eq!(
        expected_paths(&parsed),
        sorted(&[
            "docs/test.md",
            "docs/outer/inner/nested_func.md",
            "docs/outer/inner.md",
            "docs/outer/outer_func.md",
            "docs/outer.md"
        ])
    );
}

#[test]
fn expected_tests_test_find_expected_const_static_type_alias() {
    let parsed = file(
        "test.rs",
        &[],
        vec![
            ModuleItem::Const(sig(&[], "const", "MY_CONST", ": i32 = 42 ;", 2)),
            ModuleItem::Static(sig(&[], "static", "MY_STATIC", ": & str = \"hello\" ;", 3)),
            ModuleItem::TypeAlias(sig(&[], "type", "MyType", "= Vec < String > ;", 4)),
        ],
    );
    assert_eq!(
        expected_paths(&parsed),
        sorted(&["docs/test.md", "docs/MY_CONST.md", "docs/MY_STATIC.md", "docs/MyType.md"])
    );
}

#[test]
fn expected_tests_test_find_expected_lib_rs() {
    let e = ModuleItem::Enum(EnumDef {
        attrs: None,
        head: "pub enum".to_string(),
        name: "TimeOfDay".to_string(),
        generics: String::new(),
        variants: Some(vec![variant(&[], "Day", 3), variant(&[], "Night", 4)]),
        line: 2,
    });
    let parsed = file("lib.rs", &[], vec![e]);
    assert_eq!(
        expected_paths(&parsed),
        sorted(&[
            "docs/lib.md",
            "docs/TimeOfDay/Day.md",
            "docs/TimeOfDay/Night.md",
            "docs/TimeOfDay.md"
        ])
    );
}

#[test]
fn expected_tests_test_find_expected_trait_impl_for_struct() {
    let parsed = file(
        "test.rs",
        &[],
        vec![
            trait_of("Format", &["file_extension", "language"]),
            unit_struct("MarkdownFormat"),
            impl_of(
                "MarkdownFormat",
                Some("Format"),
                vec![function(&[], "file_extension", 9), function(&[], "language", 12)],
            ),
        ],
    );
    assert_eq!(
        expected_paths(&parsed),
        sorted(&[
            "docs/test.md",
            "docs/Format/file_extension.md",
            "docs/Format/language.md",
            "docs/Format.md",
            "docs/MarkdownFormat/Format/file_extension.md",
            "docs/MarkdownFormat/Format/language.md",
            "docs/MarkdownFormat.md"
        ])
    );
}

#[test]
fn expected_tests_test_find_expected_regular_impl_vs_trait_impl() {
    let parsed = file(
        "test.rs",
        &[],
        vec![
            unit_struct("MyStruct"),
            impl_of("MyStruct", None, vec![function(&[], "new", 5)]),
            trait_of("MyTrait", &["trait_method"]),
            impl_of("MyStruct", Some("MyTrait"), vec![function(&[], "trait_method", 14)]),
        ],
    );
    assert_eq!(
        expected_paths(&parsed),
        sorted(&[
            "docs/test.md",
            "docs/MyStruct/new.md",
            "docs/MyStruct/MyTrait/trait_method.md",
            "docs/MyStruct.md",
            "docs/MyTrait/trait_method.md",
            "docs/MyTrait.md"
        ])
    );
}
