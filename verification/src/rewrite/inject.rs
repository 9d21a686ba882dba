//! Annotating items with the macros that pull their documentation back in
//! from markdown files.
use vstd::prelude::*;

use crate::config::DocsPathMode;
use crate::syntax::{literal_plain_char, literal_token, string_literal_token};
use crate::text::{
    append_chars, chars_of, contains, contains_chars, lemma_no_spaces_concat,
    lemma_prefix_contains, lemma_prefix_extend, no_spaces, no_spaces_chars,
};

verus! {

/// The text already holds an omnidoc attribute (spaces ignored).
pub open spec fn has_omnidoc(item: Seq<char>) -> bool {
    contains(no_spaces(item), "#[omnidoc"@) || contains(no_spaces(item), "#[syncdoc::omnidoc"@)
}

/// The text already holds a module documentation macro (spaces ignored).
pub open spec fn has_module_doc(item: Seq<char>) -> bool {
    contains(no_spaces(item), "module_doc!"@) && contains(no_spaces(item), "#![doc"@)
}

/// The tokens of the omnidoc attribute for a documentation root and mode.
pub open spec fn omnidoc_attr(docs_root: Seq<char>, mode: DocsPathMode) -> Seq<char> {
    match mode {
        DocsPathMode::InlinePaths => "# [syncdoc :: omnidoc (path = "@ + string_literal_token(
            docs_root,
        ) + ")] "@,
        DocsPathMode::TomlConfig => "# [syncdoc :: omnidoc] "@,
    }
}

/// The tokens of the module documentation attribute for a documentation
/// root and mode.
pub open spec fn module_doc_attr(docs_root: Seq<char>, mode: DocsPathMode) -> Seq<char> {
    match mode {
        DocsPathMode::InlinePaths => "# ! [doc = syncdoc :: module_doc ! (path = "@
            + string_literal_token(docs_root) + ")] "@,
        DocsPathMode::TomlConfig => "# ! [doc = syncdoc :: module_doc ! ()] "@,
    }
}

/// An item's tokens with the omnidoc attribute put first, unless it already
/// has one.
pub open spec fn with_omnidoc(item: Seq<char>, docs_root: Seq<char>, mode: DocsPathMode) -> Seq<
    char,
> {
    if has_omnidoc(item) {
        item
    } else {
        omnidoc_attr(docs_root, mode) + item
    }
}

/// Whether the tokens hold an omnidoc attribute (`#[omnidoc` or
/// `#[syncdoc::omnidoc`, spaces ignored).
pub fn has_omnidoc_attr(item: &str) -> (b: bool)
    ensures
        b == has_omnidoc(item@),
{
    let t = no_spaces_chars(&chars_of(item));
    contains_chars(&t, &chars_of("#[omnidoc")) || contains_chars(&t, &chars_of("#[syncdoc::omnidoc"))
}

/// Whether the tokens hold a module documentation macro (`module_doc!`
/// together with `#![doc`, spaces ignored).
pub fn has_module_doc_macro(item: &str) -> (b: bool)
    ensures
        b == has_module_doc(item@),
{
    let t = no_spaces_chars(&chars_of(item));
    contains_chars(&t, &chars_of("module_doc!")) && contains_chars(&t, &chars_of("#![doc"))
}

/// A documentation root that an attribute holds as it is, and without
/// spaces: printable ASCII other than space, `"` and `\`.
pub open spec fn plain_root(root: Seq<char>) -> bool {
    forall|i: int| 0 <= i < root.len() ==> literal_plain_char(#[trigger] root[i]) && root[i] != ' '
}

/// The omnidoc attribute with its spaces removed, for a plain root.
pub open spec fn omnidoc_text(docs_root: Seq<char>, mode: DocsPathMode) -> Seq<char> {
    match mode {
        DocsPathMode::InlinePaths => "#[syncdoc::omnidoc(path=\""@ + docs_root + "\")]"@,
        DocsPathMode::TomlConfig => "#[syncdoc::omnidoc]"@,
    }
}

/// A text without spaces is its own space-free form.
proof fn lemma_no_spaces_id(s: Seq<char>)
    requires
        forall|i: int| 0 <= i < s.len() ==> s[i] != ' ',
    ensures
        no_spaces(s) == s,
    decreases s.len(),
{
    if s.len() > 0 {
        lemma_no_spaces_id(s.drop_last());
        assert(s.drop_last().push(s.last()) =~= s);
    }
}

/// The omnidoc attribute, spaces removed, is `omnidoc_text`.
#[verifier::spinoff_prover]
proof fn lemma_omnidoc_attr_text(docs_root: Seq<char>, mode: DocsPathMode)
    requires
        mode is InlinePaths ==> plain_root(docs_root) && string_literal_token(docs_root) == seq![
            '"',
        ] + docs_root + seq!['"'],
    ensures
        no_spaces(omnidoc_attr(docs_root, mode)) == omnidoc_text(docs_root, mode),
{
    reveal_strlit("# [syncdoc :: omnidoc] ");
    reveal_strlit("#[syncdoc::omnidoc]");
    reveal_strlit("# [syncdoc :: omnidoc (path = ");
    reveal_strlit(")] ");
    reveal_strlit("#[syncdoc::omnidoc(path=\"");
    reveal_strlit("\")]");
    match mode {
        DocsPathMode::TomlConfig => {
            assert(no_spaces("# [syncdoc :: omnidoc] "@) =~= "#[syncdoc::omnidoc]"@) by {
                reveal_with_fuel(no_spaces, 24);
            }
        },
        DocsPathMode::InlinePaths => {
            let head = "# [syncdoc :: omnidoc (path = "@;
            let lit = seq!['"'] + docs_root + seq!['"'];
            let tail = ")] "@;
            assert(no_spaces(head) =~= "#[syncdoc::omnidoc(path="@) by {
                reveal_strlit("#[syncdoc::omnidoc(path=");
                reveal_with_fuel(no_spaces, 32);
            }
            assert(no_spaces(tail) =~= seq![')', ']']) by {
                reveal_with_fuel(no_spaces, 4);
            }
            assert forall|i: int| 0 <= i < lit.len() implies lit[i] != ' ' by {
                if 0 < i < lit.len() - 1 {
                    assert(lit[i] == docs_root[i - 1]);
                }
            }
            lemma_no_spaces_id(lit);
            lemma_no_spaces_concat(head, lit);
            lemma_no_spaces_concat(head + lit, tail);
            reveal_strlit("#[syncdoc::omnidoc(path=");
            assert(omnidoc_attr(docs_root, mode) == head + lit + tail);
            assert(no_spaces(head) + lit + no_spaces(tail) =~= omnidoc_text(docs_root, mode));
        },
    }
}

fn omnidoc_attr_chars(docs_root: &str, mode: DocsPathMode) -> (r: Vec<char>)
    ensures
        r@ == omnidoc_attr(docs_root@, mode),
        mode is InlinePaths && plain_root(docs_root@) ==> string_literal_token(docs_root@) == seq![
            '"',
        ] + docs_root@ + seq!['"'],
{
    match mode {
        DocsPathMode::InlinePaths => {
            let mut v = chars_of("# [syncdoc :: omnidoc (path = ");
            let lit = literal_token(docs_root);
            append_chars(&mut v, &chars_of(lit.as_str()));
            append_chars(&mut v, &chars_of(")] "));
            v
        },
        DocsPathMode::TomlConfig => chars_of("# [syncdoc :: omnidoc] "),
    }
}

/// Puts `#[syncdoc::omnidoc(path = "...")]` (`#[syncdoc::omnidoc]` in
/// `TomlConfig` mode) before an item's tokens. Idempotent: an item that
/// already has an omnidoc attribute comes back unchanged.
pub fn inject_omnidoc_attr(item: &str, docs_root: &str, mode: DocsPathMode) -> (r: String)
    ensures
        r@ == with_omnidoc(item@, docs_root@, mode),
        has_omnidoc(item@) ==> r@ == item@,
        !has_omnidoc(item@) && (mode is TomlConfig || plain_root(docs_root@)) ==> no_spaces(r@)
            == omnidoc_text(docs_root@, mode) + no_spaces(item@),
{
    if has_omnidoc_attr(item) {
        return crate::text::string_of(&chars_of(item));
    }
    let mut v = omnidoc_attr_chars(docs_root, mode);
    proof {
        if mode is TomlConfig || plain_root(docs_root@) {
            lemma_omnidoc_attr_text(docs_root@, mode);
            lemma_no_spaces_concat(omnidoc_attr(docs_root@, mode), item@);
        }
    }
    append_chars(&mut v, &chars_of(item));
    crate::text::string_of(&v)
}

/// The module documentation attribute,
/// `#![doc = syncdoc::module_doc!(path = "...")]` (without the path in
/// `TomlConfig` mode).
pub fn inject_module_doc_attr(docs_root: &str, mode: DocsPathMode) -> (r: String)
    ensures
        r@ == module_doc_attr(docs_root@, mode),
{
    match mode {
        DocsPathMode::InlinePaths => {
            let mut v = chars_of("# ! [doc = syncdoc :: module_doc ! (path = ");
            let lit = literal_token(docs_root);
            append_chars(&mut v, &chars_of(lit.as_str()));
            append_chars(&mut v, &chars_of(")] "));
            crate::text::string_of(&v)
        },
        DocsPathMode::TomlConfig => crate::text::string_of(
            &chars_of("# ! [doc = syncdoc :: module_doc ! ()] "),
        ),
    }
}

/// The omnidoc attribute is recognised as one, whatever follows it.
#[verifier::spinoff_prover]
#[verifier::rlimit(30)]
proof fn lemma_omnidoc_attr_detected(docs_root: Seq<char>, mode: DocsPathMode, item: Seq<char>)
    ensures
        has_omnidoc(omnidoc_attr(docs_root, mode) + item),
{
    let key = "#[syncdoc::omnidoc"@;
    reveal_strlit("#[syncdoc::omnidoc");
    match mode {
        DocsPathMode::InlinePaths => {
            let head = "# [syncdoc :: omnidoc (path = "@;
            let rest = string_literal_token(docs_root) + ")] "@ + item;
            assert(omnidoc_attr(docs_root, mode) + item == head + rest);
            reveal_strlit("# [syncdoc :: omnidoc (path = ");
            reveal_with_fuel(no_spaces, 32);
            assert(no_spaces(head).take(key.len() as int) =~= key);
            lemma_no_spaces_concat(head, rest);
            lemma_prefix_extend(no_spaces(head), key, no_spaces(rest));
            lemma_prefix_contains(no_spaces(head + rest), key);
        },
        DocsPathMode::TomlConfig => {
            let head = "# [syncdoc :: omnidoc] "@;
            assert(omnidoc_attr(docs_root, mode) + item == head + item);
            reveal_strlit("# [syncdoc :: omnidoc] ");
            reveal_with_fuel(no_spaces, 25);
            assert(no_spaces(head).take(key.len() as int) =~= key);
            lemma_no_spaces_concat(head, item);
            lemma_prefix_extend(no_spaces(head), key, no_spaces(item));
            lemma_prefix_contains(no_spaces(head + item), key);
        },
    }
}

/// Annotating is idempotent: an annotated item carries an omnidoc
/// attribute, and annotating it again changes nothing.
pub proof fn lemma_inject_omnidoc_idempotent(item: Seq<char>, docs_root: Seq<char>, mode: DocsPathMode)
    ensures
        has_omnidoc(with_omnidoc(item, docs_root, mode)),
        with_omnidoc(with_omnidoc(item, docs_root, mode), docs_root, mode) == with_omnidoc(
            item,
            docs_root,
            mode,
        ),
{
    if !has_omnidoc(item) {
        lemma_omnidoc_attr_detected(docs_root, mode, item);
    }
}

proof fn lemma_no_spaces_doc_open()
    ensures
        no_spaces("# ! [doc = "@) == "#![doc="@,
{
    reveal_strlit("# ! [doc = ");
    reveal_strlit("#![doc=");
    reveal_with_fuel(no_spaces, 12);
    assert(no_spaces("# ! [doc = "@) =~= "#![doc="@);
}

proof fn lemma_no_spaces_macro()
    ensures
        no_spaces("syncdoc :: module_doc ! "@) == "syncdoc::module_doc!"@,
{
    reveal_strlit("syncdoc :: module_doc ! ");
    reveal_strlit("syncdoc::module_doc!");
    reveal_with_fuel(no_spaces, 26);
    assert(no_spaces("syncdoc :: module_doc ! "@) =~= "syncdoc::module_doc!"@);
}

/// The module documentation attribute that is injected is the one that the
/// check for an existing module documentation macro recognises.
pub proof fn lemma_module_doc_attr_detected(docs_root: Seq<char>, mode: DocsPathMode)
    ensures
        has_module_doc(module_doc_attr(docs_root, mode)),
{
    let open_key = "#![doc"@;
    let macro_key = "module_doc!"@;
    reveal_strlit("#![doc");
    reveal_strlit("module_doc!");
    let p1 = "# ! [doc = "@;
    let p2 = "syncdoc :: module_doc ! "@;
    let rest = match mode {
        DocsPathMode::InlinePaths => "(path = "@ + string_literal_token(docs_root) + ")] "@,
        DocsPathMode::TomlConfig => "()] "@,
    };
    assert(module_doc_attr(docs_root, mode) == p1 + (p2 + rest)) by {
        reveal_strlit("# ! [doc = syncdoc :: module_doc ! (path = ");
        reveal_strlit("# ! [doc = syncdoc :: module_doc ! ()] ");
        reveal_strlit("# ! [doc = ");
        reveal_strlit("syncdoc :: module_doc ! ");
        reveal_strlit("(path = ");
        reveal_strlit("()] ");
        assert("# ! [doc = syncdoc :: module_doc ! (path = "@ =~= p1 + p2 + "(path = "@);
        assert("# ! [doc = syncdoc :: module_doc ! ()] "@ =~= p1 + p2 + "()] "@);
    }
    lemma_no_spaces_doc_open();
    lemma_no_spaces_macro();
    lemma_no_spaces_concat(p1, p2 + rest);
    lemma_no_spaces_concat(p2, rest);
    let n1 = "#![doc="@;
    let n2 = "syncdoc::module_doc!"@;
    reveal_strlit("#![doc=");
    reveal_strlit("syncdoc::module_doc!");
    let nr = no_spaces(rest);
    assert(no_spaces(module_doc_attr(docs_root, mode)) == n1 + (n2 + nr));
    assert(n1.take(open_key.len() as int) =~= open_key);
    lemma_prefix_extend(n1, open_key, n2 + nr);
    lemma_prefix_contains(n1 + (n2 + nr), open_key);
    let tail = n2.skip(9);
    assert(tail.take(macro_key.len() as int) =~= macro_key);
    assert(n2 + nr == n2.take(9) + (tail + nr));
    lemma_prefix_extend(tail, macro_key, nr);
    lemma_prefix_contains(tail + nr, macro_key);
    crate::text::lemma_contains_after(n2.take(9), tail + nr, macro_key);
    crate::text::lemma_contains_after(n1, n2 + nr, macro_key);
}

} // verus!
