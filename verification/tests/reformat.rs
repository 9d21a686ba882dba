use syncdoc_migrate::rewrite::reformat::{
    rewrite_preserving_format, ReformatAction, ReformatEvent, ReformatJob,
};

/// What rustfmt prints for the texts these tests hand it.
fn rustfmt_known(input: &str) -> Result<String, String> {
    let known = [
        (
            "//! Hello\n\n/// world\nfn foo() {\n    Ok(())\n}\n",
            "//! Hello\n\n/// world\nfn foo() {\n    Ok(())\n}\n",
        ),
        (
            "#![doc = syncdoc::module_doc!(path = \"docs\")]\n#[syncdoc::omnidoc]\nfn foo() { Ok(()) }\n",
            "#![doc = syncdoc::module_doc!(path = \"docs\")]\n#[syncdoc::omnidoc]\nfn foo() {\n    Ok(())\n}\n",
        ),
        (
            "const _: i32 = { doc=syncdoc::module_doc!(path=\"docs\") };",
            "const _: i32 = { doc = syncdoc::module_doc!(path = \"docs\") };\n",
        ),
    ];
    known
        .iter()
        .find(|(i, _)| *i == input)
        .map(|(_, o)| o.to_string())
        .ok_or_else(|| format!("no known formatting for {:?}", input))
}

/// Runs a rewrite to its end, answering each request from `rustfmt_known`.
fn run(mut job: ReformatJob, mut action: ReformatAction) -> Result<String, String> {
    loop {
        let event = match action {
            ReformatAction::Format(text) => ReformatEvent::Formatted(rustfmt_known(&text)),
            ReformatAction::FormatEach(requests) => ReformatEvent::FormattedEach(
                requests
                    .iter()
                    .map(|r| r.as_ref().and_then(|q| rustfmt_known(q).ok()))
                    .collect(),
            ),
            ReformatAction::Finished(result) => return result,
        };
        let (next_job, next_action) = job.step(event);
        job = next_job;
        action = next_action;
    }
}

#[test]
fn test_rewrite_preserving_format_simple() {
    let original = r#"//! Hello

/// world
fn foo() {
    Ok(())
}
"#;

    let transformed = r#"#![doc = syncdoc::module_doc!(path = "docs")]
#[syncdoc::omnidoc]
fn foo() { Ok(()) }
"#;

    let (job, action) = rewrite_preserving_format(original, transformed);
    let result = run(job, action);
    assert!(result.is_ok());
    let rewritten = result.unwrap();

    // Should have module_doc
    assert!(rewritten.contains("module_doc!"));

    // Should have omnidoc
    assert!(rewritten.contains("omnidoc"));

    // Should preserve function body formatting if possible
    assert!(rewritten.contains("fn foo()"));
}

#[test]
fn rewrite_reports_rustfmt_failure() {
    let (job, action) = rewrite_preserving_format("fn a() {}", "fn b() {}");
    assert!(matches!(action, ReformatAction::Format(ref t) if t == "fn a() {}"));
    let (job, action) = job.step(ReformatEvent::Formatted(Err("boom".to_string())));
    assert!(matches!(job, ReformatJob::Done));
    assert!(matches!(action, ReformatAction::Finished(Err(ref e)) if e == "boom"));
}
