//! The documentation files that the structure of a source file calls for,
//! whether or not its items are documented yet.
use vstd::prelude::*;

use super::{
    all_docs, doc_entry, fields_docs, item_docs, items_docs, opt_fields_docs, variant_docs,
    variants_docs, build_path, doc_path, extend_context, extend_impl_context, exts_view, file_context,
    file_context_of, impl_context, location, location_of, module_doc_path, module_doc_path_of,
    push_extraction, DocExtraction,
};
use crate::discover::ParsedFile;
use crate::extract::{doc_content, inner_attrs_view, inner_opener, Attribute};
use crate::syntax::{Field, ModuleItem, StructBody, Variant, VariantData};
use crate::text::{append_chars, chars_of, newline, string_of, strings_view, with_final_newline};

verus! {

/// The expected file of one item: its path, no content yet (a lone
/// newline), and its location.
pub open spec fn expect_entry(
    base: Seq<char>,
    ctx: Seq<Seq<char>>,
    name: Seq<char>,
    file: Seq<char>,
    line: nat,
) -> Seq<(Seq<char>, Seq<char>, Seq<char>)> {
    seq![(doc_path(base, ctx, name), with_final_newline(Seq::empty()), location(file, line))]
}

pub open spec fn fields_expected(
    fields: Seq<Field>,
    base: Seq<char>,
    ctx: Seq<Seq<char>>,
    file: Seq<char>,
) -> Seq<(Seq<char>, Seq<char>, Seq<char>)>
    decreases fields.len(),
{
    if fields.len() == 0 {
        Seq::empty()
    } else {
        let f = fields.last();
        fields_expected(fields.drop_last(), base, ctx, file) + expect_entry(
            base,
            ctx,
            f.name@,
            file,
            f.line as nat,
        )
    }
}

pub open spec fn opt_fields_expected(
    fields: Option<Vec<Field>>,
    base: Seq<char>,
    ctx: Seq<Seq<char>>,
    file: Seq<char>,
) -> Seq<(Seq<char>, Seq<char>, Seq<char>)> {
    match fields {
        Some(f) => fields_expected(f@, base, ctx, file),
        None => Seq::empty(),
    }
}

pub open spec fn variants_expected(
    vs: Seq<Variant>,
    base: Seq<char>,
    ctx: Seq<Seq<char>>,
    file: Seq<char>,
) -> Seq<(Seq<char>, Seq<char>, Seq<char>)>
    decreases vs.len(),
{
    if vs.len() == 0 {
        Seq::empty()
    } else {
        let v = vs.last();
        variants_expected(vs.drop_last(), base, ctx, file) + expect_entry(
            base,
            ctx,
            v.name@,
            file,
            v.line as nat,
        ) + match v.data {
            Some(VariantData::Struct(fs)) => opt_fields_expected(fs, base, ctx.push(v.name@), file),
            _ => Seq::empty(),
        }
    }
}

/// The expected files of an item and of everything inside it, in source
/// order. Impl blocks and other items have none of their own.
pub open spec fn item_expected(
    item: ModuleItem,
    base: Seq<char>,
    ctx: Seq<Seq<char>>,
    file: Seq<char>,
) -> Seq<(Seq<char>, Seq<char>, Seq<char>)>
    decreases item,
{
    match item {
        ModuleItem::Function(s) => expect_entry(base, ctx, s.name@, file, s.line as nat),
        ModuleItem::TraitMethod(s) => expect_entry(base, ctx, s.name@, file, s.line as nat),
        ModuleItem::TypeAlias(s) => expect_entry(base, ctx, s.name@, file, s.line as nat),
        ModuleItem::Const(s) => expect_entry(base, ctx, s.name@, file, s.line as nat),
        ModuleItem::Static(s) => expect_entry(base, ctx, s.name@, file, s.line as nat),
        ModuleItem::ImplBlock(b) => items_expected(b.body.items@, base, ctx + impl_context(b), file),
        ModuleItem::Module(m) => expect_entry(base, ctx, m.name@, file, m.line as nat)
            + items_expected(m.body.items@, base, ctx.push(m.name@), file),
        ModuleItem::Trait(m) => expect_entry(base, ctx, m.name@, file, m.line as nat)
            + items_expected(m.body.items@, base, ctx.push(m.name@), file),
        ModuleItem::Enum(e) => expect_entry(base, ctx, e.name@, file, e.line as nat)
            + match e.variants {
            Some(vs) => variants_expected(vs@, base, ctx.push(e.name@), file),
            None => Seq::empty(),
        },
        ModuleItem::Struct(s) => expect_entry(base, ctx, s.name@, file, s.line as nat)
            + match s.body {
            StructBody::Named(fs) => opt_fields_expected(fs, base, ctx.push(s.name@), file),
            _ => Seq::empty(),
        },
        ModuleItem::Other(_) => Seq::empty(),
    }
}

pub open spec fn items_expected(
    items: Seq<ModuleItem>,
    base: Seq<char>,
    ctx: Seq<Seq<char>>,
    file: Seq<char>,
) -> Seq<(Seq<char>, Seq<char>, Seq<char>)>
    decreases items,
{
    if items.len() == 0 {
        Seq::empty()
    } else {
        items_expected(items.drop_last(), base, ctx, file) + item_expected(
            items.last(),
            base,
            ctx,
            file,
        )
    }
}

/// Adds the expected file of one named thing.
fn push_expected(
    base: &str,
    ctx: &Vec<String>,
    name: &String,
    file: &str,
    line: usize,
    out: &mut Vec<DocExtraction>,
)
    ensures
        exts_view(final(out)@) == exts_view(old(out)@) + expect_entry(
            base@,
            strings_view(ctx@),
            name@,
            file@,
            line as nat,
        ),
{
    let path = build_path(base, ctx.as_slice(), name.as_str());
    let loc = location_of(file, line);
    push_extraction(out, DocExtraction::new(path, String::new(), loc));
}

fn push_fields_expected(
    fields: &Vec<Field>,
    base: &str,
    ctx: &Vec<String>,
    file: &str,
    out: &mut Vec<DocExtraction>,
)
    ensures
        exts_view(final(out)@) == exts_view(old(out)@) + fields_expected(
            fields@,
            base@,
            strings_view(ctx@),
            file@,
        ),
{
    let ghost start = exts_view(out@);
    let mut i: usize = 0;
    while i < fields.len()
        invariant
            i <= fields.len(),
            exts_view(out@) == start + fields_expected(
                fields@.take(i as int),
                base@,
                strings_view(ctx@),
                file@,
            ),
        decreases fields.len() - i,
    {
        assert(fields@.take(i + 1).drop_last() == fields@.take(i as int));
        assert(fields@.take(i + 1).last() == fields@[i as int]);
        let f = &fields[i];
        push_expected(base, ctx, &f.name, file, f.line, out);
        i = i + 1;
    }
    assert(fields@.take(fields.len() as int) == fields@);
}

fn push_variants_expected(
    variants: &Vec<Variant>,
    base: &str,
    ctx: &Vec<String>,
    file: &str,
    out: &mut Vec<DocExtraction>,
)
    ensures
        exts_view(final(out)@) == exts_view(old(out)@) + variants_expected(
            variants@,
            base@,
            strings_view(ctx@),
            file@,
        ),
{
    let ghost start = exts_view(out@);
    let ghost c = strings_view(ctx@);
    let mut i: usize = 0;
    while i < variants.len()
        invariant
            i <= variants.len(),
            c == strings_view(ctx@),
            exts_view(out@) == start + variants_expected(variants@.take(i as int), base@, c, file@),
        decreases variants.len() - i,
    {
        assert(variants@.take(i + 1).drop_last() == variants@.take(i as int));
        assert(variants@.take(i + 1).last() == variants@[i as int]);
        let v = &variants[i];
        push_expected(base, ctx, &v.name, file, v.line, out);
        match &v.data {
            Some(VariantData::Struct(Some(fs))) => {
                let inner = extend_context(ctx, &v.name);
                push_fields_expected(fs, base, &inner, file, out);
            },
            _ => {},
        }
        i = i + 1;
    }
    assert(variants@.take(variants.len() as int) == variants@);
}

fn push_items_expected(
    items: &Vec<ModuleItem>,
    base: &str,
    ctx: &Vec<String>,
    file: &str,
    out: &mut Vec<DocExtraction>,
)
    ensures
        exts_view(final(out)@) == exts_view(old(out)@) + items_expected(
            items@,
            base@,
            strings_view(ctx@),
            file@,
        ),
    decreases items@, 1nat,
{
    let ghost start = exts_view(out@);
    let ghost c = strings_view(ctx@);
    let mut i: usize = 0;
    while i < items.len()
        invariant
            i <= items.len(),
            c == strings_view(ctx@),
            exts_view(out@) == start + items_expected(items@.take(i as int), base@, c, file@),
        decreases items.len() - i,
    {
        assert(items@.take(i + 1).drop_last() == items@.take(i as int));
        assert(items@.take(i + 1).last() == items@[i as int]);
        proof {
            assert(decreases_to!(items@ => items@[i as int]));
        }
        find_item_paths(&items[i], base, ctx, file, out);
        i = i + 1;
    }
    assert(items@.take(items.len() as int) == items@);
}

/// Adds the expected files of one item and of everything inside it.
#[verifier::spinoff_prover]
#[verifier::rlimit(40)]
fn find_item_paths(
    item: &ModuleItem,
    base: &str,
    ctx: &Vec<String>,
    file: &str,
    out: &mut Vec<DocExtraction>,
)
    ensures
        exts_view(final(out)@) == exts_view(old(out)@) + item_expected(
            *item,
            base@,
            strings_view(ctx@),
            file@,
        ),
    decreases *item, 0nat,
{
    let ghost start = exts_view(out@);
    let ghost c = strings_view(ctx@);
    match item {
        ModuleItem::Function(s) | ModuleItem::TraitMethod(s) | ModuleItem::TypeAlias(s)
        | ModuleItem::Const(s) | ModuleItem::Static(s) => {
            push_expected(base, ctx, &s.name, file, s.line, out);
        },
        ModuleItem::ImplBlock(b) => {
            let mut inner = ctx.clone();
            extend_impl_context(&mut inner, b, ctx);
            proof {
                assert(decreases_to!(*item => (*item)->ImplBlock_0));
                assert(decreases_to!(*b => b.body));
                assert(decreases_to!(b.body => b.body.items));
                assert(decreases_to!(b.body.items => b.body.items@));
            }
            push_items_expected(&b.body.items, base, &inner, file, out);
        },
        ModuleItem::Module(m) | ModuleItem::Trait(m) => {
            push_expected(base, ctx, &m.name, file, m.line, out);
            let inner = extend_context(ctx, &m.name);
            proof {
                if item is Module {
                    assert(decreases_to!(*item => (*item)->Module_0));
                } else {
                    assert(decreases_to!(*item => (*item)->Trait_0));
                }
                assert(decreases_to!(*m => m.body));
                assert(decreases_to!(m.body => m.body.items));
                assert(decreases_to!(m.body.items => m.body.items@));
            }
            push_items_expected(&m.body.items, base, &inner, file, out);
        },
        ModuleItem::Enum(e) => {
            push_expected(base, ctx, &e.name, file, e.line, out);
            match &e.variants {
                Some(vs) => {
                    let inner = extend_context(ctx, &e.name);
                    push_variants_expected(vs, base, &inner, file, out);
                },
                None => {},
            }
        },
        ModuleItem::Struct(s) => {
            push_expected(base, ctx, &s.name, file, s.line, out);
            match &s.body {
                StructBody::Named(Some(fs)) => {
                    let inner = extend_context(ctx, &s.name);
                    push_fields_expected(fs, base, &inner, file, out);
                },
                _ => {},
            }
        },
        ModuleItem::Other(_) => {},
    }
    assert(exts_view(out@) == start + item_expected(*item, base@, c, file@));
}

/// The expected files of a parsed file: its module documentation first,
/// then those of its items in source order.
pub open spec fn all_expected(parsed: ParsedFile, base: Seq<char>) -> Seq<
    (Seq<char>, Seq<char>, Seq<char>),
> {
    seq![
        (
            module_doc_path(parsed.path@, parsed.mod_path@, base),
            with_final_newline(Seq::empty()),
            parsed.path@ + ":1"@,
        ),
    ] + items_expected(parsed.content.items@, base, file_context(parsed.mod_path@), parsed.path@)
}

/// Finds all documentation paths that the structure of a file calls for:
/// one `DocExtraction` with empty content (a lone newline) per module,
/// item, field and variant, whether documented or not.
pub fn find_expected_doc_paths(parsed: &ParsedFile, docs_root: &str) -> (r: Vec<DocExtraction>)
    ensures
        exts_view(r@) == all_expected(*parsed, docs_root@),
{
    let mut out: Vec<DocExtraction> = Vec::new();
    let path = module_doc_path_of(parsed, docs_root);
    let mut loc = chars_of(parsed.path.as_str());
    append_chars(&mut loc, &chars_of(":1"));
    push_extraction(&mut out, DocExtraction::new(path, String::new(), string_of(&loc)));
    let ctx = file_context_of(parsed);
    push_items_expected(&parsed.content.items, docs_root, &ctx, parsed.path.as_str(), &mut out);
    out
}

/// `b` has an entry with the path and location of `e`.
pub open spec fn has_entry(
    b: Seq<(Seq<char>, Seq<char>, Seq<char>)>,
    e: (Seq<char>, Seq<char>, Seq<char>),
) -> bool {
    exists|j: int| 0 <= j < b.len() && #[trigger] b[j].0 == e.0 && b[j].2 == e.2
}

/// Every entry of `a` has an entry in `b` with the same path and location.
pub open spec fn covered(
    a: Seq<(Seq<char>, Seq<char>, Seq<char>)>,
    b: Seq<(Seq<char>, Seq<char>, Seq<char>)>,
) -> bool {
    forall|i: int| 0 <= i < a.len() ==> has_entry(b, #[trigger] a[i])
}

proof fn lemma_has_entry_concat(
    b1: Seq<(Seq<char>, Seq<char>, Seq<char>)>,
    b2: Seq<(Seq<char>, Seq<char>, Seq<char>)>,
    e: (Seq<char>, Seq<char>, Seq<char>),
)
    ensures
        has_entry(b1, e) ==> has_entry(b1 + b2, e),
        has_entry(b2, e) ==> has_entry(b1 + b2, e),
{
    if has_entry(b1, e) {
        let j = choose|j: int| 0 <= j < b1.len() && #[trigger] b1[j].0 == e.0 && b1[j].2 == e.2;
        assert((b1 + b2)[j] == b1[j]);
    }
    if has_entry(b2, e) {
        let j = choose|j: int| 0 <= j < b2.len() && #[trigger] b2[j].0 == e.0 && b2[j].2 == e.2;
        assert((b1 + b2)[b1.len() + j] == b2[j]);
    }
}

proof fn lemma_covered_concat(
    a1: Seq<(Seq<char>, Seq<char>, Seq<char>)>,
    b1: Seq<(Seq<char>, Seq<char>, Seq<char>)>,
    a2: Seq<(Seq<char>, Seq<char>, Seq<char>)>,
    b2: Seq<(Seq<char>, Seq<char>, Seq<char>)>,
)
    requires
        covered(a1, b1),
        covered(a2, b2),
    ensures
        covered(a1 + a2, b1 + b2),
{
    assert forall|i: int| 0 <= i < (a1 + a2).len() implies has_entry(b1 + b2, #[trigger] (a1
        + a2)[i]) by {
        if i < a1.len() {
            assert((a1 + a2)[i] == a1[i]);
            lemma_has_entry_concat(b1, b2, a1[i]);
        } else {
            assert((a1 + a2)[i] == a2[i - a1.len()]);
            lemma_has_entry_concat(b1, b2, a2[i - a1.len()]);
        }
    }
}

proof fn lemma_empty_covered(b: Seq<(Seq<char>, Seq<char>, Seq<char>)>)
    ensures
        covered(Seq::empty(), b),
{
}

/// A one-entry list whose entry has the path and location of every entry
/// of `a` covers it.
proof fn lemma_single_covers(
    a: Seq<(Seq<char>, Seq<char>, Seq<char>)>,
    e: (Seq<char>, Seq<char>, Seq<char>),
)
    requires
        forall|i: int| 0 <= i < a.len() ==> (#[trigger] a[i]).0 == e.0 && a[i].2 == e.2,
    ensures
        covered(a, seq![e]),
{
    assert forall|i: int| 0 <= i < a.len() implies has_entry(seq![e], #[trigger] a[i]) by {
        assert(seq![e][0] == e);
    }
}

proof fn lemma_entry_covered(
    attrs: Option<Vec<Attribute>>,
    base: Seq<char>,
    ctx: Seq<Seq<char>>,
    name: Seq<char>,
    file: Seq<char>,
    line: nat,
)
    ensures
        covered(doc_entry(attrs, base, ctx, name, file, line), expect_entry(base, ctx, name, file, line)),
{
    lemma_single_covers(
        doc_entry(attrs, base, ctx, name, file, line),
        (doc_path(base, ctx, name), with_final_newline(Seq::empty()), location(file, line)),
    );
}

proof fn lemma_fields_covered(fields: Seq<Field>, base: Seq<char>, ctx: Seq<Seq<char>>, file: Seq<char>)
    ensures
        covered(fields_docs(fields, base, ctx, file), fields_expected(fields, base, ctx, file)),
    decreases fields.len(),
{
    if fields.len() > 0 {
        let f = fields.last();
        lemma_fields_covered(fields.drop_last(), base, ctx, file);
        lemma_entry_covered(f.attrs, base, ctx, f.name@, file, f.line as nat);
        lemma_covered_concat(
            fields_docs(fields.drop_last(), base, ctx, file),
            fields_expected(fields.drop_last(), base, ctx, file),
            doc_entry(f.attrs, base, ctx, f.name@, file, f.line as nat),
            expect_entry(base, ctx, f.name@, file, f.line as nat),
        );
    } else {
        lemma_empty_covered(Seq::empty());
    }
}

proof fn lemma_opt_fields_covered(
    fields: Option<Vec<Field>>,
    base: Seq<char>,
    ctx: Seq<Seq<char>>,
    file: Seq<char>,
)
    ensures
        covered(opt_fields_docs(fields, base, ctx, file), opt_fields_expected(fields, base, ctx, file)),
{
    match fields {
        Some(f) => lemma_fields_covered(f@, base, ctx, file),
        None => lemma_empty_covered(Seq::empty()),
    }
}

proof fn lemma_variants_covered(vs: Seq<Variant>, base: Seq<char>, ctx: Seq<Seq<char>>, file: Seq<char>)
    ensures
        covered(variants_docs(vs, base, ctx, file), variants_expected(vs, base, ctx, file)),
    decreases vs.len(),
{
    if vs.len() > 0 {
        let v = vs.last();
        lemma_variants_covered(vs.drop_last(), base, ctx, file);
        let entry = doc_entry(v.attrs, base, ctx, v.name@, file, v.line as nat);
        let expect = expect_entry(base, ctx, v.name@, file, v.line as nat);
        lemma_entry_covered(v.attrs, base, ctx, v.name@, file, v.line as nat);
        let (fd, fe) = match v.data {
            Some(VariantData::Struct(fs)) => {
                lemma_opt_fields_covered(fs, base, ctx.push(v.name@), file);
                (
                    opt_fields_docs(fs, base, ctx.push(v.name@), file),
                    opt_fields_expected(fs, base, ctx.push(v.name@), file),
                )
            },
            _ => {
                lemma_empty_covered(Seq::empty());
                (Seq::empty(), Seq::empty())
            },
        };
        assert(variant_docs(v, base, ctx, file) == entry + fd);
        lemma_covered_concat(entry, expect, fd, fe);
        let pd = variants_docs(vs.drop_last(), base, ctx, file);
        let pe = variants_expected(vs.drop_last(), base, ctx, file);
        lemma_covered_concat(pd, pe, entry + fd, expect + fe);
        assert(variants_expected(vs, base, ctx, file) == pe + (expect + fe));
    } else {
        lemma_empty_covered(Seq::empty());
    }
}

proof fn lemma_item_covered(item: ModuleItem, base: Seq<char>, ctx: Seq<Seq<char>>, file: Seq<char>)
    ensures
        covered(item_docs(item, base, ctx, file), item_expected(item, base, ctx, file)),
    decreases item, 0nat,
{
    match item {
        ModuleItem::Function(s) => lemma_entry_covered(s.attrs, base, ctx, s.name@, file, s.line as nat),
        ModuleItem::TraitMethod(s) => lemma_entry_covered(s.attrs, base, ctx, s.name@, file, s.line as nat),
        ModuleItem::TypeAlias(s) => lemma_entry_covered(s.attrs, base, ctx, s.name@, file, s.line as nat),
        ModuleItem::Const(s) => lemma_entry_covered(s.attrs, base, ctx, s.name@, file, s.line as nat),
        ModuleItem::Static(s) => lemma_entry_covered(s.attrs, base, ctx, s.name@, file, s.line as nat),
        ModuleItem::ImplBlock(b) => {
            assert(decreases_to!(item => b));
            assert(decreases_to!(b => b.body));
            assert(decreases_to!(b.body => b.body.items));
            assert(decreases_to!(b.body.items => b.body.items@));
            lemma_items_covered(b.body.items@, base, ctx + impl_context(b), file);
        },
        ModuleItem::Module(m) => {
            assert(decreases_to!(item => m));
            assert(decreases_to!(m => m.body));
            assert(decreases_to!(m.body => m.body.items));
            assert(decreases_to!(m.body.items => m.body.items@));
            lemma_entry_covered(m.attrs, base, ctx, m.name@, file, m.line as nat);
            lemma_items_covered(m.body.items@, base, ctx.push(m.name@), file);
            lemma_covered_concat(
                doc_entry(m.attrs, base, ctx, m.name@, file, m.line as nat),
                expect_entry(base, ctx, m.name@, file, m.line as nat),
                items_docs(m.body.items@, base, ctx.push(m.name@), file),
                items_expected(m.body.items@, base, ctx.push(m.name@), file),
            );
        },
        ModuleItem::Trait(m) => {
            assert(decreases_to!(item => m));
            assert(decreases_to!(m => m.body));
            assert(decreases_to!(m.body => m.body.items));
            assert(decreases_to!(m.body.items => m.body.items@));
            lemma_entry_covered(m.attrs, base, ctx, m.name@, file, m.line as nat);
            lemma_items_covered(m.body.items@, base, ctx.push(m.name@), file);
            lemma_covered_concat(
                doc_entry(m.attrs, base, ctx, m.name@, file, m.line as nat),
                expect_entry(base, ctx, m.name@, file, m.line as nat),
                items_docs(m.body.items@, base, ctx.push(m.name@), file),
                items_expected(m.body.items@, base, ctx.push(m.name@), file),
            );
        },
        ModuleItem::Enum(e) => {
            lemma_entry_covered(e.attrs, base, ctx, e.name@, file, e.line as nat);
            match e.variants {
                Some(vs) => {
                    lemma_variants_covered(vs@, base, ctx.push(e.name@), file);
                    lemma_covered_concat(
                        doc_entry(e.attrs, base, ctx, e.name@, file, e.line as nat),
                        expect_entry(base, ctx, e.name@, file, e.line as nat),
                        variants_docs(vs@, base, ctx.push(e.name@), file),
                        variants_expected(vs@, base, ctx.push(e.name@), file),
                    );
                },
                None => {
                    lemma_empty_covered(Seq::empty());
                    lemma_covered_concat(
                        doc_entry(e.attrs, base, ctx, e.name@, file, e.line as nat),
                        expect_entry(base, ctx, e.name@, file, e.line as nat),
                        Seq::empty(),
                        Seq::empty(),
                    );
                },
            }
        },
        ModuleItem::Struct(s) => {
            lemma_entry_covered(s.attrs, base, ctx, s.name@, file, s.line as nat);
            let (fd, fe) = match s.body {
                StructBody::Named(fs) => {
                    lemma_opt_fields_covered(fs, base, ctx.push(s.name@), file);
                    (
                        opt_fields_docs(fs, base, ctx.push(s.name@), file),
                        opt_fields_expected(fs, base, ctx.push(s.name@), file),
                    )
                },
                _ => {
                    lemma_empty_covered(Seq::empty());
                    (Seq::empty(), Seq::empty())
                },
            };
            lemma_covered_concat(
                doc_entry(s.attrs, base, ctx, s.name@, file, s.line as nat),
                expect_entry(base, ctx, s.name@, file, s.line as nat),
                fd,
                fe,
            );
        },
        ModuleItem::Other(_) => lemma_empty_covered(Seq::empty()),
    }
}

proof fn lemma_items_covered(items: Seq<ModuleItem>, base: Seq<char>, ctx: Seq<Seq<char>>, file: Seq<char>)
    ensures
        covered(items_docs(items, base, ctx, file), items_expected(items, base, ctx, file)),
    decreases items, 1nat,
{
    if items.len() > 0 {
        assert(decreases_to!(items => items.drop_last()));
        assert(decreases_to!(items => items.last()));
        lemma_items_covered(items.drop_last(), base, ctx, file);
        lemma_item_covered(items.last(), base, ctx, file);
        lemma_covered_concat(
            items_docs(items.drop_last(), base, ctx, file),
            items_expected(items.drop_last(), base, ctx, file),
            item_docs(items.last(), base, ctx, file),
            item_expected(items.last(), base, ctx, file),
        );
    } else {
        lemma_empty_covered(Seq::empty());
    }
}

/// Every documentation file extracted from a file is one of the files its
/// structure calls for: same path, same source location.
pub proof fn lemma_extracted_within_expected(parsed: ParsedFile, base: Seq<char>)
    ensures
        covered(all_docs(parsed, base), all_expected(parsed, base)),
{
    let ctx = file_context(parsed.mod_path@);
    let items = parsed.content.items@;
    lemma_items_covered(items, base, ctx, parsed.path@);
    let head = seq![
        (
            module_doc_path(parsed.path@, parsed.mod_path@, base),
            with_final_newline(Seq::<char>::empty()),
            parsed.path@ + ":1"@,
        ),
    ];
    let module_doc = match doc_content(
        inner_attrs_view(parsed.content.inner_attrs),
        inner_opener(),
    ) {
        Some(c) => seq![
            (
                module_doc_path(parsed.path@, parsed.mod_path@, base),
                with_final_newline(c),
                parsed.path@ + ":1"@,
            ),
        ],
        None => Seq::empty(),
    };
    assert(all_docs(parsed, base) == module_doc + items_docs(items, base, ctx, parsed.path@));
    lemma_single_covers(
        module_doc,
        (
            module_doc_path(parsed.path@, parsed.mod_path@, base),
            with_final_newline(Seq::<char>::empty()),
            parsed.path@ + ":1"@,
        ),
    );
    lemma_covered_concat(
        module_doc,
        head,
        items_docs(items, base, ctx, parsed.path@),
        items_expected(items, base, ctx, parsed.path@),
    );
}

/// Every entry holds a lone newline as its content.
pub open spec fn all_blank(s: Seq<(Seq<char>, Seq<char>, Seq<char>)>) -> bool {
    forall|k: int| 0 <= k < s.len() ==> (#[trigger] s[k]).1 == newline()
}

proof fn lemma_blank_concat(
    a: Seq<(Seq<char>, Seq<char>, Seq<char>)>,
    b: Seq<(Seq<char>, Seq<char>, Seq<char>)>,
)
    requires
        all_blank(a),
        all_blank(b),
    ensures
        all_blank(a + b),
{
    assert forall|k: int| 0 <= k < (a + b).len() implies (#[trigger] (a + b)[k]).1 == newline() by {
        if k < a.len() {
            assert((a + b)[k] == a[k]);
        } else {
            assert((a + b)[k] == b[k - a.len()]);
        }
    }
}

proof fn lemma_entry_blank(base: Seq<char>, ctx: Seq<Seq<char>>, name: Seq<char>, file: Seq<char>, line: nat)
    ensures
        all_blank(expect_entry(base, ctx, name, file, line)),
{
    assert(!crate::text::has_suffix(Seq::<char>::empty(), newline()));
    assert(with_final_newline(Seq::<char>::empty()) =~= newline());
}

proof fn lemma_fields_blank(fields: Seq<Field>, base: Seq<char>, ctx: Seq<Seq<char>>, file: Seq<char>)
    ensures
        all_blank(fields_expected(fields, base, ctx, file)),
    decreases fields.len(),
{
    if fields.len() > 0 {
        let f = fields.last();
        lemma_fields_blank(fields.drop_last(), base, ctx, file);
        lemma_entry_blank(base, ctx, f.name@, file, f.line as nat);
        lemma_blank_concat(
            fields_expected(fields.drop_last(), base, ctx, file),
            expect_entry(base, ctx, f.name@, file, f.line as nat),
        );
    }
}

proof fn lemma_opt_fields_blank(
    fields: Option<Vec<Field>>,
    base: Seq<char>,
    ctx: Seq<Seq<char>>,
    file: Seq<char>,
)
    ensures
        all_blank(opt_fields_expected(fields, base, ctx, file)),
{
    if let Some(f) = fields {
        lemma_fields_blank(f@, base, ctx, file);
    }
}

proof fn lemma_variants_blank(vs: Seq<Variant>, base: Seq<char>, ctx: Seq<Seq<char>>, file: Seq<char>)
    ensures
        all_blank(variants_expected(vs, base, ctx, file)),
    decreases vs.len(),
{
    if vs.len() > 0 {
        let v = vs.last();
        lemma_variants_blank(vs.drop_last(), base, ctx, file);
        lemma_entry_blank(base, ctx, v.name@, file, v.line as nat);
        let fe = match v.data {
            Some(VariantData::Struct(fs)) => {
                lemma_opt_fields_blank(fs, base, ctx.push(v.name@), file);
                opt_fields_expected(fs, base, ctx.push(v.name@), file)
            },
            _ => Seq::empty(),
        };
        let pe = variants_expected(vs.drop_last(), base, ctx, file);
        let e = expect_entry(base, ctx, v.name@, file, v.line as nat);
        lemma_blank_concat(pe, e);
        lemma_blank_concat(pe + e, fe);
        assert(variants_expected(vs, base, ctx, file) == pe + e + fe);
    }
}

proof fn lemma_item_blank(item: ModuleItem, base: Seq<char>, ctx: Seq<Seq<char>>, file: Seq<char>)
    ensures
        all_blank(item_expected(item, base, ctx, file)),
    decreases item, 0nat,
{
    match item {
        ModuleItem::Function(s) => lemma_entry_blank(base, ctx, s.name@, file, s.line as nat),
        ModuleItem::TraitMethod(s) => lemma_entry_blank(base, ctx, s.name@, file, s.line as nat),
        ModuleItem::TypeAlias(s) => lemma_entry_blank(base, ctx, s.name@, file, s.line as nat),
        ModuleItem::Const(s) => lemma_entry_blank(base, ctx, s.name@, file, s.line as nat),
        ModuleItem::Static(s) => lemma_entry_blank(base, ctx, s.name@, file, s.line as nat),
        ModuleItem::ImplBlock(b) => {
            assert(decreases_to!(item => b));
            assert(decreases_to!(b => b.body));
            assert(decreases_to!(b.body => b.body.items));
            assert(decreases_to!(b.body.items => b.body.items@));
            lemma_items_blank(b.body.items@, base, ctx + impl_context(b), file);
        },
        ModuleItem::Module(m) => {
            assert(decreases_to!(item => m));
            assert(decreases_to!(m => m.body));
            assert(decreases_to!(m.body => m.body.items));
            assert(decreases_to!(m.body.items => m.body.items@));
            lemma_entry_blank(base, ctx, m.name@, file, m.line as nat);
            lemma_items_blank(m.body.items@, base, ctx.push(m.name@), file);
            lemma_blank_concat(
                expect_entry(base, ctx, m.name@, file, m.line as nat),
                items_expected(m.body.items@, base, ctx.push(m.name@), file),
            );
        },
        ModuleItem::Trait(m) => {
            assert(decreases_to!(item => m));
            assert(decreases_to!(m => m.body));
            assert(decreases_to!(m.body => m.body.items));
            assert(decreases_to!(m.body.items => m.body.items@));
            lemma_entry_blank(base, ctx, m.name@, file, m.line as nat);
            lemma_items_blank(m.body.items@, base, ctx.push(m.name@), file);
            lemma_blank_concat(
                expect_entry(base, ctx, m.name@, file, m.line as nat),
                items_expected(m.body.items@, base, ctx.push(m.name@), file),
            );
        },
        ModuleItem::Enum(e) => {
            lemma_entry_blank(base, ctx, e.name@, file, e.line as nat);
            let ve = match e.variants {
                Some(vs) => {
                    lemma_variants_blank(vs@, base, ctx.push(e.name@), file);
                    variants_expected(vs@, base, ctx.push(e.name@), file)
                },
                None => Seq::empty(),
            };
            lemma_blank_concat(expect_entry(base, ctx, e.name@, file, e.line as nat), ve);
        },
        ModuleItem::Struct(s) => {
            lemma_entry_blank(base, ctx, s.name@, file, s.line as nat);
            let fe = match s.body {
                StructBody::Named(fs) => {
                    lemma_opt_fields_blank(fs, base, ctx.push(s.name@), file);
                    opt_fields_expected(fs, base, ctx.push(s.name@), file)
                },
                _ => Seq::empty(),
            };
            lemma_blank_concat(expect_entry(base, ctx, s.name@, file, s.line as nat), fe);
        },
        ModuleItem::Other(_) => {},
    }
}

proof fn lemma_items_blank(items: Seq<ModuleItem>, base: Seq<char>, ctx: Seq<Seq<char>>, file: Seq<char>)
    ensures
        all_blank(items_expected(items, base, ctx, file)),
    decreases items, 1nat,
{
    if items.len() > 0 {
        assert(decreases_to!(items => items.drop_last()));
        assert(decreases_to!(items => items.last()));
        lemma_items_blank(items.drop_last(), base, ctx, file);
        lemma_item_blank(items.last(), base, ctx, file);
        lemma_blank_concat(
            items_expected(items.drop_last(), base, ctx, file),
            item_expected(items.last(), base, ctx, file),
        );
    }
}

/// The expected files of a file all start empty (a lone newline), and the
/// first is the module documentation: at the module path (or file stem)
/// under the documentation root, located at line 1 of the file.
pub proof fn lemma_expected_files_start_empty(parsed: ParsedFile, base: Seq<char>)
    ensures
        all_blank(all_expected(parsed, base)),
        all_expected(parsed, base).len() >= 1,
        all_expected(parsed, base)[0] == (
            module_doc_path(parsed.path@, parsed.mod_path@, base),
            newline(),
            parsed.path@ + ":1"@,
        ),
{
    let head = seq![
        (
            module_doc_path(parsed.path@, parsed.mod_path@, base),
            with_final_newline(Seq::<char>::empty()),
            parsed.path@ + ":1"@,
        ),
    ];
    lemma_entry_blank(base, Seq::empty(), Seq::empty(), Seq::empty(), 0);
    assert(all_blank(head));
    let items = parsed.content.items@;
    let ctx = file_context(parsed.mod_path@);
    lemma_items_blank(items, base, ctx, parsed.path@);
    lemma_blank_concat(head, items_expected(items, base, ctx, parsed.path@));
    assert(all_expected(parsed, base)[0] == head[0]);
}

proof fn lemma_expect_under(base: Seq<char>,
    ctx: Seq<Seq<char>>,
    name: Seq<char>,
    file: Seq<char>,
    line: nat,
)
    requires
        ctx.len() >= 1,
    ensures
        super::paths_under(expect_entry(base, ctx, name, file, line), base + seq!['/'] + ctx[0] + seq!['/']),
{
    super::lemma_doc_path_under(base, ctx, name);
}

proof fn lemma_fields_expect_under(fields: Seq<Field>, base: Seq<char>, ctx: Seq<Seq<char>>, file: Seq<char>)
    requires
        ctx.len() >= 1,
    ensures
        super::paths_under(fields_expected(fields, base, ctx, file), base + seq!['/'] + ctx[0] + seq!['/']),
    decreases fields.len(),
{
    let pre = base + seq!['/'] + ctx[0] + seq!['/'];
    if fields.len() > 0 {
        let f = fields.last();
        lemma_fields_expect_under(fields.drop_last(), base, ctx, file);
        lemma_expect_under(base, ctx, f.name@, file, f.line as nat);
        super::lemma_under_concat(
            fields_expected(fields.drop_last(), base, ctx, file),
            expect_entry(base, ctx, f.name@, file, f.line as nat),
            pre,
        );
    }
}

proof fn lemma_opt_fields_expect_under(
    fields: Option<Vec<Field>>,
    base: Seq<char>,
    ctx: Seq<Seq<char>>,
    file: Seq<char>,
)
    requires
        ctx.len() >= 1,
    ensures
        super::paths_under(opt_fields_expected(fields, base, ctx, file), base + seq!['/'] + ctx[0] + seq!['/']),
{
    if let Some(f) = fields {
        lemma_fields_expect_under(f@, base, ctx, file);
    }
}

proof fn lemma_variants_expect_under(vs: Seq<Variant>, base: Seq<char>, ctx: Seq<Seq<char>>, file: Seq<char>)
    requires
        ctx.len() >= 1,
    ensures
        super::paths_under(variants_expected(vs, base, ctx, file), base + seq!['/'] + ctx[0] + seq!['/']),
    decreases vs.len(),
{
    let pre = base + seq!['/'] + ctx[0] + seq!['/'];
    if vs.len() > 0 {
        let v = vs.last();
        lemma_variants_expect_under(vs.drop_last(), base, ctx, file);
        lemma_expect_under(base, ctx, v.name@, file, v.line as nat);
        assert(ctx.push(v.name@)[0] == ctx[0]);
        let fd = match v.data {
            Some(VariantData::Struct(fs)) => {
                lemma_opt_fields_expect_under(fs, base, ctx.push(v.name@), file);
                opt_fields_expected(fs, base, ctx.push(v.name@), file)
            },
            _ => Seq::empty(),
        };
        let e = expect_entry(base, ctx, v.name@, file, v.line as nat);
        let pe = variants_expected(vs.drop_last(), base, ctx, file);
        super::lemma_under_concat(pe, e, pre);
        super::lemma_under_concat(pe + e, fd, pre);
        assert(variants_expected(vs, base, ctx, file) == pe + e + fd);
    }
}

proof fn lemma_item_expect_under(item: ModuleItem, base: Seq<char>, ctx: Seq<Seq<char>>, file: Seq<char>)
    requires
        ctx.len() >= 1,
    ensures
        super::paths_under(item_expected(item, base, ctx, file), base + seq!['/'] + ctx[0] + seq!['/']),
    decreases item, 0nat,
{
    let pre = base + seq!['/'] + ctx[0] + seq!['/'];
    match item {
        ModuleItem::Function(s) => lemma_expect_under(base, ctx, s.name@, file, s.line as nat),
        ModuleItem::TraitMethod(s) => lemma_expect_under(base, ctx, s.name@, file, s.line as nat),
        ModuleItem::TypeAlias(s) => lemma_expect_under(base, ctx, s.name@, file, s.line as nat),
        ModuleItem::Const(s) => lemma_expect_under(base, ctx, s.name@, file, s.line as nat),
        ModuleItem::Static(s) => lemma_expect_under(base, ctx, s.name@, file, s.line as nat),
        ModuleItem::ImplBlock(b) => {
            assert(decreases_to!(item => b));
            assert(decreases_to!(b => b.body));
            assert(decreases_to!(b.body => b.body.items));
            assert(decreases_to!(b.body.items => b.body.items@));
            assert((ctx + impl_context(b))[0] == ctx[0]);
            lemma_items_expect_under(b.body.items@, base, ctx + impl_context(b), file);
        },
        ModuleItem::Module(m) => {
            assert(decreases_to!(item => m));
            assert(decreases_to!(m => m.body));
            assert(decreases_to!(m.body => m.body.items));
            assert(decreases_to!(m.body.items => m.body.items@));
            assert(ctx.push(m.name@)[0] == ctx[0]);
            lemma_expect_under(base, ctx, m.name@, file, m.line as nat);
            lemma_items_expect_under(m.body.items@, base, ctx.push(m.name@), file);
            super::lemma_under_concat(
                expect_entry(base, ctx, m.name@, file, m.line as nat),
                items_expected(m.body.items@, base, ctx.push(m.name@), file),
                pre,
            );
        },
        ModuleItem::Trait(m) => {
            assert(decreases_to!(item => m));
            assert(decreases_to!(m => m.body));
            assert(decreases_to!(m.body => m.body.items));
            assert(decreases_to!(m.body.items => m.body.items@));
            assert(ctx.push(m.name@)[0] == ctx[0]);
            lemma_expect_under(base, ctx, m.name@, file, m.line as nat);
            lemma_items_expect_under(m.body.items@, base, ctx.push(m.name@), file);
            super::lemma_under_concat(
                expect_entry(base, ctx, m.name@, file, m.line as nat),
                items_expected(m.body.items@, base, ctx.push(m.name@), file),
                pre,
            );
        },
        ModuleItem::Enum(e) => {
            lemma_expect_under(base, ctx, e.name@, file, e.line as nat);
            assert(ctx.push(e.name@)[0] == ctx[0]);
            let vd = match e.variants {
                Some(vs) => {
                    lemma_variants_expect_under(vs@, base, ctx.push(e.name@), file);
                    variants_expected(vs@, base, ctx.push(e.name@), file)
                },
                None => Seq::empty(),
            };
            super::lemma_under_concat(expect_entry(base, ctx, e.name@, file, e.line as nat), vd, pre);
        },
        ModuleItem::Struct(s) => {
            lemma_expect_under(base, ctx, s.name@, file, s.line as nat);
            assert(ctx.push(s.name@)[0] == ctx[0]);
            let fd = match s.body {
                StructBody::Named(fs) => {
                    lemma_opt_fields_expect_under(fs, base, ctx.push(s.name@), file);
                    opt_fields_expected(fs, base, ctx.push(s.name@), file)
                },
                _ => Seq::empty(),
            };
            super::lemma_under_concat(expect_entry(base, ctx, s.name@, file, s.line as nat), fd, pre);
        },
        ModuleItem::Other(_) => {},
    }
}

proof fn lemma_items_expect_under(items: Seq<ModuleItem>, base: Seq<char>, ctx: Seq<Seq<char>>, file: Seq<char>)
    requires
        ctx.len() >= 1,
    ensures
        super::paths_under(items_expected(items, base, ctx, file), base + seq!['/'] + ctx[0] + seq!['/']),
    decreases items, 1nat,
{
    if items.len() > 0 {
        assert(decreases_to!(items => items.drop_last()));
        assert(decreases_to!(items => items.last()));
        lemma_items_expect_under(items.drop_last(), base, ctx, file);
        lemma_item_expect_under(items.last(), base, ctx, file);
        super::lemma_under_concat(
            items_expected(items.drop_last(), base, ctx, file),
            item_expected(items.last(), base, ctx, file),
            base + seq!['/'] + ctx[0] + seq!['/'],
        );
    }
}

/// The expected files of a file with a module path lie under that path:
/// every one but the module's own is at `base/<module path>/...`.
pub proof fn lemma_expected_under_module_path(parsed: ParsedFile, base: Seq<char>)
    requires
        parsed.mod_path@.len() > 0,
    ensures
        forall|k: int|
            0 <= k < all_expected(parsed, base).len() ==> #[trigger] all_expected(parsed, base)[k].0
                == module_doc_path(parsed.path@, parsed.mod_path@, base) || crate::text::has_prefix(
                all_expected(parsed, base)[k].0,
                base + seq!['/'] + parsed.mod_path@ + seq!['/'],
            ),
{
    let ctx = file_context(parsed.mod_path@);
    let items = parsed.content.items@;
    let pre = base + seq!['/'] + parsed.mod_path@ + seq!['/'];
    if ctx.len() >= 1 {
        lemma_items_expect_under(items, base, ctx, parsed.path@);
    }
    let d = all_expected(parsed, base);
    assert forall|k: int| 0 <= k < d.len() implies #[trigger] d[k].0 == module_doc_path(
        parsed.path@,
        parsed.mod_path@,
        base,
    ) || crate::text::has_prefix(d[k].0, pre) by {
        if k >= 1 {
            assert(d[k] == items_expected(items, base, ctx, parsed.path@)[k - 1]);
            assert(ctx.len() >= 1 && ctx[0] == parsed.mod_path@);
        }
    }
}

} // verus!
