//! A Rust source file as the migration works on it.
use vstd::prelude::*;

use crate::syntax::ModuleContent;
use crate::text::{append_chars, chars_of, contains, contains_chars, string_of};

verus! {

/// A parsed Rust file with its content and metadata.
#[derive(Debug)]
pub struct ParsedFile {
    /// The file's path, as text.
    pub path: String,
    /// The file's module path inside its crate (`api/v1` for
    /// `src/api/v1.rs`); empty for a crate root or a file outside a crate.
    pub mod_path: String,
    pub content: ModuleContent,
    pub original_source: String,
}

/// The manifest section that configures the documentation directory.
pub open spec fn docs_path_section() -> Seq<char> {
    "\n[package.metadata.syncdoc]\ndocs-path = \"docs\"\n"@
}

/// A `Cargo.toml` with the default documentation directory configured: the
/// new content when the `[package.metadata.syncdoc]` section is missing and
/// has to be appended, `None` when it is there.
pub fn add_docs_path_config(manifest: &str) -> (r: Option<String>)
    ensures
        contains(manifest@, "[package.metadata.syncdoc]"@) ==> r is None,
        !contains(manifest@, "[package.metadata.syncdoc]"@) ==> (r matches Some(s) && s@
            == manifest@ + docs_path_section()),
{
    let v = chars_of(manifest);
    if contains_chars(&v, &chars_of("[package.metadata.syncdoc]")) {
        return None;
    }
    let mut out = v;
    append_chars(&mut out, &chars_of("\n[package.metadata.syncdoc]\ndocs-path = \"docs\"\n"));
    Some(string_of(&out))
}

} // verus!
