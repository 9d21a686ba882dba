//! Rewriting source files: stripping doc comments and annotating items.
pub mod inject;
pub mod reformat;
pub mod strip;

use vstd::prelude::*;

use crate::config::DocsPathMode;
use crate::discover::ParsedFile;
use crate::extract::inner_attrs_view;
use crate::syntax::{item_tokens, push_inner_attrs, push_item, toks, ModuleItem};
use crate::text::{append_chars, chars_of, string_of};
use inject::{
    has_module_doc, has_module_doc_macro, inject_module_doc_attr, inject_omnidoc_attr,
    module_doc_attr, with_omnidoc,
};
use reformat::{rewrite_preserving_format, ReformatAction, ReformatJob};
use strip::{
    non_doc, strip_content_tokens, strip_doc_attrs_from_item,
    strip_doc_attrs_from_items, strip_inner_doc_attrs, strip_item_tokens,
};

verus! {

/// Items that get an omnidoc attribute: all but trait methods and other
/// items.
pub open spec fn annotated_kind(item: ModuleItem) -> bool {
    !(item is TraitMethod || item is Other)
}

/// The tokens an item has after the strip step (its own when not
/// stripping).
pub open spec fn stage_tokens(item: ModuleItem, strip: bool) -> Seq<char> {
    if strip {
        strip_item_tokens(item)
    } else {
        item_tokens(item)
    }
}

/// The items, each annotated when its kind calls for it.
pub open spec fn annotated_items(
    items: Seq<ModuleItem>,
    strip: bool,
    docs_root: Seq<char>,
    mode: DocsPathMode,
) -> Seq<char>
    decreases items.len(),
{
    if items.len() == 0 {
        Seq::empty()
    } else {
        let item = items.last();
        let t = stage_tokens(item, strip);
        annotated_items(items.drop_last(), strip, docs_root, mode) + if annotated_kind(item) {
            with_omnidoc(t, docs_root, mode)
        } else {
            t
        }
    }
}

/// The inner attributes after the strip step.
pub open spec fn staged_inner(parsed: ParsedFile, strip: bool) -> Seq<Seq<char>> {
    let inner = match inner_attrs_view(parsed.content.inner_attrs) {
        Some(a) => a,
        None => Seq::empty(),
    };
    if strip {
        non_doc(inner)
    } else {
        inner
    }
}

/// The transformed tokens of a file: stripped of documentation when
/// `strip`, and, when `annotate`, with the module documentation macro put
/// first (where the file had inner attributes and none of those left holds
/// one), documentation inner attributes removed, and an omnidoc attribute
/// on each annotated item.
pub open spec fn rewritten_tokens(
    parsed: ParsedFile,
    docs_root: Seq<char>,
    mode: DocsPathMode,
    strip: bool,
    annotate: bool,
) -> Seq<char> {
    if !annotate {
        strip_content_tokens(parsed.content)
    } else {
        let inner = staged_inner(parsed, strip);
        let module_doc = if !has_module_doc(toks(inner)) && parsed.content.inner_attrs is Some {
            module_doc_attr(docs_root, mode)
        } else {
            Seq::empty()
        };
        module_doc + toks(non_doc(inner)) + annotated_items(
            parsed.content.items@,
            strip,
            docs_root,
            mode,
        )
    }
}

/// The inner attributes after the strip step, as printed tokens.
fn staged_inner_tokens(parsed: &ParsedFile, strip: bool) -> (r: (
    Vec<crate::extract::InnerAttribute>,
    Vec<char>,
))
    ensures
        r.0@.map_values(|a: crate::extract::InnerAttribute| a.tokens@) == staged_inner(
            *parsed,
            strip,
        ),
        r.1@ == toks(staged_inner(*parsed, strip)),
{
    let kept = if strip {
        strip_inner_doc_attrs(&parsed.content.inner_attrs)
    } else {
        let mut all: Vec<crate::extract::InnerAttribute> = Vec::new();
        if let Some(list) = &parsed.content.inner_attrs {
            let mut i: usize = 0;
            while i < list.len()
                invariant
                    i <= list.len(),
                    all@.map_values(|a: crate::extract::InnerAttribute| a.tokens@) == list@.take(
                        i as int,
                    ).map_values(|a: crate::extract::InnerAttribute| a.tokens@),
                decreases list.len() - i,
            {
                let ghost before = all@;
                all.push(crate::extract::InnerAttribute { tokens: list[i].tokens.clone() });
                assert(list@.take(i + 1) == list@.take(i as int).push(list@[i as int]));
                assert(all@.map_values(|a: crate::extract::InnerAttribute| a.tokens@)
                    == before.map_values(|a: crate::extract::InnerAttribute| a.tokens@).push(
                    list@[i as int].tokens@,
                ));
                assert(list@.take(i + 1).map_values(|a: crate::extract::InnerAttribute| a.tokens@)
                    == list@.take(i as int).map_values(
                    |a: crate::extract::InnerAttribute| a.tokens@,
                ).push(list@[i as int].tokens@));
                i = i + 1;
            }
            assert(list@.take(list.len() as int) == list@);
        } else {
            assert(all@.map_values(|a: crate::extract::InnerAttribute| a.tokens@)
                =~= Seq::<Seq<char>>::empty());
        }
        all
    };
    let mut text: Vec<char> = Vec::new();
    let some_kept = Some(kept);
    push_inner_attrs(&mut text, &some_kept);
    assert(text@ == toks(staged_inner(*parsed, strip)));
    match some_kept {
        Some(k) => (k, text),
        None => (Vec::new(), text),
    }
}

/// Rewrites a parsed file: strips its doc comments (`strip`) and/or
/// annotates its items with the macros that read them from markdown
/// (`annotate`), then starts the format-preserving rewrite of the original
/// source into the result. `None` when neither is asked for.
pub fn rewrite_file(
    parsed: &ParsedFile,
    docs_root: &str,
    docs_mode: DocsPathMode,
    strip: bool,
    annotate: bool,
) -> (r: Option<(ReformatJob, ReformatAction)>)
    ensures
        !strip && !annotate ==> r is None,
        strip || annotate ==> (r matches Some((job, action)) && (job matches ReformatJob::AwaitOriginal {
            transformed,
            restore,
        } && transformed@ == rewritten_tokens(*parsed, docs_root@, docs_mode, strip, annotate)
            && !restore) && (action matches ReformatAction::Format(s) && s@
            == parsed.original_source@)),
{
    if !strip && !annotate {
        return None;
    }
    let output: Vec<char> = if !annotate {
        strip_doc_attrs_from_items(&parsed.content)
    } else {
        let (inner, inner_text) = staged_inner_tokens(parsed, strip);
        let mut out: Vec<char> = Vec::new();
        let inner_str = string_of(&inner_text);
        if !has_module_doc_macro(inner_str.as_str()) && parsed.content.inner_attrs.is_some() {
            let attr = inject_module_doc_attr(docs_root, docs_mode);
            append_chars(&mut out, &chars_of(attr.as_str()));
        }
        let kept = strip_inner_doc_attrs(&Some(inner));
        push_inner_attrs(&mut out, &Some(kept));
        let ghost start = out@;
        let items = &parsed.content.items;
        let mut i: usize = 0;
        while i < items.len()
            invariant
                i <= items.len(),
                out@ == start + annotated_items(items@.take(i as int), strip, docs_root@, docs_mode),
            decreases items.len() - i,
        {
            assert(items@.take(i + 1).drop_last() == items@.take(i as int));
            assert(items@.take(i + 1).last() == items@[i as int]);
            let mut t: Vec<char> = Vec::new();
            if strip {
                strip_doc_attrs_from_item(&mut t, &items[i]);
            } else {
                push_item(&mut t, &items[i]);
            }
            let is_annotated = match &items[i] {
                ModuleItem::TraitMethod(_) | ModuleItem::Other(_) => false,
                _ => true,
            };
            if is_annotated {
                let ts = string_of(&t);
                let annotated = inject_omnidoc_attr(ts.as_str(), docs_root, docs_mode);
                append_chars(&mut out, &chars_of(annotated.as_str()));
            } else {
                append_chars(&mut out, &t);
            }
            i = i + 1;
        }
        assert(items@.take(items.len() as int) == items@);
        out
    };
    let transformed = string_of(&output);
    Some(rewrite_preserving_format(parsed.original_source.as_str(), transformed.as_str()))
}

/// Annotating runs item by item: the annotated tokens of two runs of items
/// are those of the first run followed by those of the second.
pub proof fn lemma_annotated_items_concat(
    a: Seq<ModuleItem>,
    b: Seq<ModuleItem>,
    strip: bool,
    docs_root: Seq<char>,
    mode: DocsPathMode,
)
    ensures
        annotated_items(a + b, strip, docs_root, mode) == annotated_items(a, strip, docs_root, mode)
            + annotated_items(b, strip, docs_root, mode),
    decreases b.len(),
{
    if b.len() == 0 {
        assert(a + b =~= a);
        assert(annotated_items(a, strip, docs_root, mode) + Seq::<char>::empty()
            =~= annotated_items(a, strip, docs_root, mode));
    } else {
        lemma_annotated_items_concat(a, b.drop_last(), strip, docs_root, mode);
        assert((a + b).drop_last() =~= a + b.drop_last());
        assert((a + b).last() == b.last());
    }
}

/// What annotating does to one item: every function, struct, enum, module,
/// trait, impl block, type alias, constant and static ends up carrying an
/// omnidoc attribute, in front of its own (possibly stripped) tokens; trait
/// methods and other items are left as they are.
pub proof fn lemma_annotation_of_item(
    x: ModuleItem,
    strip: bool,
    docs_root: Seq<char>,
    mode: DocsPathMode,
)
    ensures
        (x is Function || x is Struct || x is Enum || x is Module || x is Trait || x is ImplBlock
            || x is TypeAlias || x is Const || x is Static) ==> inject::has_omnidoc(
            annotated_items(seq![x], strip, docs_root, mode),
        ),
        crate::text::has_suffix(
            annotated_items(seq![x], strip, docs_root, mode),
            stage_tokens(x, strip),
        ),
        (x is TraitMethod || x is Other) ==> annotated_items(seq![x], strip, docs_root, mode)
            == stage_tokens(x, strip),
{
    let s = seq![x];
    assert(s.drop_last() =~= Seq::<ModuleItem>::empty());
    assert(s.last() == x);
    let t = stage_tokens(x, strip);
    inject::lemma_inject_omnidoc_idempotent(t, docs_root, mode);
    let r = annotated_items(s, strip, docs_root, mode);
    assert(annotated_items(s.drop_last(), strip, docs_root, mode) =~= Seq::<char>::empty());
    let piece = if annotated_kind(x) {
        inject::with_omnidoc(t, docs_root, mode)
    } else {
        t
    };
    assert(r == annotated_items(s.drop_last(), strip, docs_root, mode) + piece);
    assert(r =~= piece);
    if annotated_kind(x) && !inject::has_omnidoc(t) {
        let p = inject::omnidoc_attr(docs_root, mode);
        assert(r =~= p + t);
        assert(r.skip(r.len() - t.len()) =~= t);
    } else {
        assert(r =~= t);
        assert(r.skip(r.len() - t.len()) =~= t);
    }
}

/// When annotating, the transformed tokens of a file end with its items,
/// each annotated as `lemma_annotation_of_item` describes, in order (see
/// `lemma_annotated_items_concat`).
pub proof fn lemma_rewritten_ends_with_items(
    parsed: ParsedFile,
    docs_root: Seq<char>,
    mode: DocsPathMode,
    strip: bool,
)
    ensures
        crate::text::has_suffix(
            rewritten_tokens(parsed, docs_root, mode, strip, true),
            annotated_items(parsed.content.items@, strip, docs_root, mode),
        ),
{
    let r = rewritten_tokens(parsed, docs_root, mode, strip, true);
    let a = annotated_items(parsed.content.items@, strip, docs_root, mode);
    assert(r.skip(r.len() - a.len()) =~= a);
}

} // verus!
