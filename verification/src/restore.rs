//! Restoring inline documentation from markdown files: the inverse of the
//! migration, turning omnidoc attributes back into doc comments.
pub mod inject;

use vstd::prelude::*;

use crate::discover::ParsedFile;
use crate::rewrite::reformat::{rewrite_preserving_format_restore, ReformatAction, ReformatJob};
use crate::text::string_of;
use inject::{docs_view, inject_all_doc_comments, restored_file_tokens};

verus! {

/// Restores inline documentation in a parsed file from the markdown files
/// at hand (path and content): starts the format-preserving restore of the
/// original source into the file with its omnidoc attributes replaced by
/// the documentation they stand for.
pub fn restore_file(parsed: &ParsedFile, docs_root: &str, docs: &Vec<(String, String)>) -> (r: (
    ReformatJob,
    ReformatAction,
))
    ensures
        r.0 matches ReformatJob::AwaitOriginal { transformed, restore } && transformed@
            == restored_file_tokens(*parsed, docs_view(docs@), docs_root@) && restore,
        r.1 matches ReformatAction::Format(s) && s@ == parsed.original_source@,
{
    let transformed = string_of(&inject_all_doc_comments(parsed, docs_root, docs));
    rewrite_preserving_format_restore(parsed.original_source.as_str(), transformed.as_str())
}

} // verus!
