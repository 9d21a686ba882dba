//! Putting documentation read from markdown files back on the items as doc
//! attributes, in place of their omnidoc attributes.
use vstd::prelude::*;

use crate::discover::ParsedFile;
use crate::extract::{attrs_view, inner_attrs_view, Attribute, InnerAttribute};
use crate::syntax::{
    literal_token, push_text, push_tok, string_literal_token, tok, toks, EnumDef, Field,
    ImplBlock, ModuleItem, Signature, StructBody, StructDef, Variant, VariantData,
};
use crate::text::{
    append_chars, chars_of, contains, contains_chars, lines, lines_of, no_spaces, no_spaces_chars,
    strings_view, trim_end, trim_end_index, vecs_view,
};
use crate::write::expected::{
    all_expected, expect_entry, fields_expected, item_expected, items_expected,
    opt_fields_expected, variants_expected,
};
use crate::write::{
    build_path, doc_path, extend_context, extend_impl_context, file_context, file_context_of,
    impl_context, module_doc_path, module_doc_path_of,
};

verus! {

/// The markdown files at hand, as plain values: path and content.
pub open spec fn docs_view(docs: Seq<(String, String)>) -> Seq<(Seq<char>, Seq<char>)> {
    docs.map_values(|d: (String, String)| (d.0@, d.1@))
}

/// The content of the first markdown file at `path`, if any.
pub open spec fn lookup(docs: Seq<(Seq<char>, Seq<char>)>, path: Seq<char>) -> Option<Seq<char>>
    decreases docs.len(),
{
    if docs.len() == 0 {
        None
    } else if docs[0].0 == path {
        Some(docs[0].1)
    } else {
        lookup(docs.drop_first(), path)
    }
}

/// Doc attributes, one per line, each line after `prefix` (`/// ` or `//! `).
pub open spec fn doc_attr_lines(prefix: Seq<char>, ls: Seq<Seq<char>>) -> Seq<char>
    decreases ls.len(),
{
    if ls.len() == 0 {
        Seq::empty()
    } else {
        doc_attr_lines(prefix, ls.drop_last()) + "# [doc = "@ + string_literal_token(
            prefix + ls.last(),
        ) + "] "@
    }
}

/// The doc attributes that hold a markdown text, line by line (trailing
/// whitespace of the text dropped).
pub open spec fn doc_attrs_of(content: Seq<char>, prefix: Seq<char>) -> Seq<char> {
    doc_attr_lines(prefix, lines(trim_end(content)))
}

/// An omnidoc attribute (spaces ignored).
pub open spec fn is_omnidoc(tokens: Seq<char>) -> bool {
    contains(no_spaces(tokens), "omnidoc"@) || contains(no_spaces(tokens), "syncdoc::omnidoc"@)
}

/// The attributes that are not omnidoc attributes.
pub open spec fn non_omnidoc(a: Seq<Seq<char>>) -> Seq<Seq<char>>
    decreases a.len(),
{
    if a.len() == 0 {
        Seq::empty()
    } else if is_omnidoc(a.last()) {
        non_omnidoc(a.drop_last())
    } else {
        non_omnidoc(a.drop_last()).push(a.last())
    }
}

pub open spec fn kept_attrs(attrs: Option<Vec<Attribute>>) -> Seq<char> {
    match attrs_view(attrs) {
        Some(a) => toks(non_omnidoc(a)),
        None => Seq::empty(),
    }
}

/// What a markdown file gives an item: its doc attributes, if the file is
/// there.
pub open spec fn item_doc_attrs(
    docs: Seq<(Seq<char>, Seq<char>)>,
    root: Seq<char>,
    ctx: Seq<Seq<char>>,
    name: Seq<char>,
) -> Seq<char> {
    match lookup(docs, doc_path(root, ctx, name)) {
        Some(c) => doc_attrs_of(c, "/// "@),
        None => Seq::empty(),
    }
}

/// An item's restored attributes: doc attributes from its markdown file,
/// then its attributes other than omnidoc.
pub open spec fn restored_attrs(
    attrs: Option<Vec<Attribute>>,
    docs: Seq<(Seq<char>, Seq<char>)>,
    root: Seq<char>,
    ctx: Seq<Seq<char>>,
    name: Seq<char>,
) -> Seq<char> {
    item_doc_attrs(docs, root, ctx, name) + kept_attrs(attrs)
}

pub open spec fn restore_field_tokens(
    f: Field,
    docs: Seq<(Seq<char>, Seq<char>)>,
    root: Seq<char>,
    ctx: Seq<Seq<char>>,
) -> Seq<char> {
    restored_attrs(f.attrs, docs, root, ctx, f.name@) + tok(f.visibility@) + tok(f.name@) + ": "@
        + tok(f.field_type@)
}

pub open spec fn restore_fields_tokens(
    fs: Seq<Field>,
    docs: Seq<(Seq<char>, Seq<char>)>,
    root: Seq<char>,
    ctx: Seq<Seq<char>>,
) -> Seq<char>
    decreases fs.len(),
{
    if fs.len() == 0 {
        Seq::empty()
    } else {
        restore_fields_tokens(fs.drop_last(), docs, root, ctx) + (if fs.len() > 1 {
            ", "@
        } else {
            Seq::empty()
        }) + restore_field_tokens(fs.last(), docs, root, ctx)
    }
}

pub open spec fn restore_braced_fields(
    fs: Option<Vec<Field>>,
    docs: Seq<(Seq<char>, Seq<char>)>,
    root: Seq<char>,
    ctx: Seq<Seq<char>>,
) -> Seq<char> {
    match fs {
        Some(f) => "{ "@ + restore_fields_tokens(f@, docs, root, ctx) + "} "@,
        None => "{ } "@,
    }
}

/// A variant with its documentation restored (`ctx` ends with the enum's
/// name).
pub open spec fn restore_variant_tokens(
    v: Variant,
    docs: Seq<(Seq<char>, Seq<char>)>,
    root: Seq<char>,
    ctx: Seq<Seq<char>>,
) -> Seq<char> {
    restored_attrs(v.attrs, docs, root, ctx, v.name@) + tok(v.name@) + match v.data {
        Some(VariantData::Struct(fs)) => restore_braced_fields(fs, docs, root, ctx.push(v.name@)),
        Some(VariantData::Other(t)) => tok(t@),
        None => Seq::empty(),
    }
}

pub open spec fn restore_variants_tokens(
    vs: Seq<Variant>,
    docs: Seq<(Seq<char>, Seq<char>)>,
    root: Seq<char>,
    ctx: Seq<Seq<char>>,
) -> Seq<char>
    decreases vs.len(),
{
    if vs.len() == 0 {
        Seq::empty()
    } else {
        restore_variants_tokens(vs.drop_last(), docs, root, ctx) + (if vs.len() > 1 {
            ", "@
        } else {
            Seq::empty()
        }) + restore_variant_tokens(vs.last(), docs, root, ctx)
    }
}

pub open spec fn restore_sig_tokens(
    s: Signature,
    docs: Seq<(Seq<char>, Seq<char>)>,
    root: Seq<char>,
    ctx: Seq<Seq<char>>,
) -> Seq<char> {
    restored_attrs(s.attrs, docs, root, ctx, s.name@) + tok(s.head@) + tok(s.name@) + tok(s.tail@)
}

pub open spec fn restore_struct_tokens(
    s: StructDef,
    docs: Seq<(Seq<char>, Seq<char>)>,
    root: Seq<char>,
    ctx: Seq<Seq<char>>,
) -> Seq<char> {
    restored_attrs(s.attrs, docs, root, ctx, s.name@) + tok(s.head@) + tok(s.name@) + tok(
        s.generics@,
    ) + match s.body {
        StructBody::Named(fs) => restore_braced_fields(fs, docs, root, ctx.push(s.name@)),
        StructBody::Tuple(t) => tok(t@),
        StructBody::Unit => "; "@,
    }
}

pub open spec fn restore_enum_tokens(
    e: EnumDef,
    docs: Seq<(Seq<char>, Seq<char>)>,
    root: Seq<char>,
    ctx: Seq<Seq<char>>,
) -> Seq<char> {
    restored_attrs(e.attrs, docs, root, ctx, e.name@) + tok(e.head@) + tok(e.name@) + tok(
        e.generics@,
    ) + "{ "@ + match e.variants {
        Some(vs) => restore_variants_tokens(vs@, docs, root, ctx.push(e.name@)),
        None => Seq::empty(),
    } + "} "@
}

/// The tokens of an item with its documentation restored from markdown:
/// doc attributes in place of omnidoc attributes, for the item, its fields,
/// variants and nested items. Inner attributes of nested bodies are left
/// out.
pub open spec fn restore_item_tokens(
    item: ModuleItem,
    docs: Seq<(Seq<char>, Seq<char>)>,
    root: Seq<char>,
    ctx: Seq<Seq<char>>,
) -> Seq<char>
    decreases item,
{
    match item {
        ModuleItem::Function(s) => restore_sig_tokens(s, docs, root, ctx),
        ModuleItem::TraitMethod(s) => restore_sig_tokens(s, docs, root, ctx),
        ModuleItem::TypeAlias(s) => restore_sig_tokens(s, docs, root, ctx),
        ModuleItem::Const(s) => restore_sig_tokens(s, docs, root, ctx),
        ModuleItem::Static(s) => restore_sig_tokens(s, docs, root, ctx),
        ModuleItem::Struct(s) => restore_struct_tokens(s, docs, root, ctx),
        ModuleItem::Enum(e) => restore_enum_tokens(e, docs, root, ctx),
        ModuleItem::Module(m) => restored_attrs(m.attrs, docs, root, ctx, m.name@) + tok(m.head@)
            + tok(m.name@) + tok(m.generics@) + "{ "@ + restore_items_tokens(
            m.body.items@,
            docs,
            root,
            ctx.push(m.name@),
        ) + "} "@,
        ModuleItem::Trait(m) => restored_attrs(m.attrs, docs, root, ctx, m.name@) + tok(m.head@)
            + tok(m.name@) + tok(m.generics@) + "{ "@ + restore_items_tokens(
            m.body.items@,
            docs,
            root,
            ctx.push(m.name@),
        ) + "} "@,
        ModuleItem::ImplBlock(b) => kept_attrs(b.attrs) + tok(b.head@) + "{ "@
            + restore_items_tokens(b.body.items@, docs, root, ctx + impl_context(b)) + "} "@,
        ModuleItem::Other(t) => tok(t@),
    }
}

pub open spec fn restore_items_tokens(
    items: Seq<ModuleItem>,
    docs: Seq<(Seq<char>, Seq<char>)>,
    root: Seq<char>,
    ctx: Seq<Seq<char>>,
) -> Seq<char>
    decreases items,
{
    if items.len() == 0 {
        Seq::empty()
    } else {
        restore_items_tokens(items.drop_last(), docs, root, ctx) + restore_item_tokens(
            items.last(),
            docs,
            root,
            ctx,
        )
    }
}

/// An inner attribute the restore drops: a module documentation macro or a
/// doc attribute (spaces ignored).
pub open spec fn is_dropped_inner(tokens: Seq<char>) -> bool {
    let t = no_spaces(tokens);
    contains(t, "module_doc!"@) || contains(t, "#[doc="@) || contains(t, "#![doc="@)
}

pub open spec fn kept_inner(a: Seq<Seq<char>>) -> Seq<Seq<char>>
    decreases a.len(),
{
    if a.len() == 0 {
        Seq::empty()
    } else if is_dropped_inner(a.last()) {
        kept_inner(a.drop_last())
    } else {
        kept_inner(a.drop_last()).push(a.last())
    }
}

/// The restored tokens of a file: the module documentation from its
/// markdown file first (as `//!` doc attributes), then the inner attributes
/// other than documentation, then the restored items.
pub open spec fn restored_file_tokens(
    parsed: ParsedFile,
    docs: Seq<(Seq<char>, Seq<char>)>,
    root: Seq<char>,
) -> Seq<char> {
    let module_doc = match lookup(docs, module_doc_path(parsed.path@, parsed.mod_path@, root)) {
        Some(c) => doc_attrs_of(c, "//! "@),
        None => Seq::empty(),
    };
    let inner = match inner_attrs_view(parsed.content.inner_attrs) {
        Some(a) => toks(kept_inner(a)),
        None => Seq::empty(),
    };
    module_doc + inner + restore_items_tokens(
        parsed.content.items@,
        docs,
        root,
        file_context(parsed.mod_path@),
    )
}

/// The content of the first markdown file at `path`, if any.
pub fn lookup_doc(docs: &Vec<(String, String)>, path: &String) -> (r: Option<String>)
    ensures
        crate::text::opt_view(r) == lookup(docs_view(docs@), path@),
{
    let ghost d = docs_view(docs@);
    assert(d.skip(0) == d);
    let mut i: usize = 0;
    while i < docs.len()
        invariant
            i <= docs.len(),
            d == docs_view(docs@),
            d.len() == docs.len(),
            lookup(d, path@) == lookup(d.skip(i as int), path@),
        decreases docs.len() - i,
    {
        assert(d.skip(i as int)[0] == (docs@[i as int].0@, docs@[i as int].1@));
        assert(d.skip(i as int).drop_first() == d.skip(i + 1));
        if docs[i].0 == *path {
            return Some(docs[i].1.clone());
        }
        i = i + 1;
    }
    None
}

/// Reads the markdown file of an item: `docs_root/context/name.md`.
pub fn read_item_markdown(
    context: &Vec<String>,
    item_name: &String,
    docs_root: &str,
    docs: &Vec<(String, String)>,
) -> (r: Option<String>)
    ensures
        crate::text::opt_view(r) == lookup(
            docs_view(docs@),
            doc_path(docs_root@, strings_view(context@), item_name@),
        ),
{
    let path = build_path(docs_root, context.as_slice(), item_name.as_str());
    lookup_doc(docs, &path)
}

/// Reads the markdown file of a file's module documentation.
pub fn read_module_doc(parsed: &ParsedFile, docs_root: &str, docs: &Vec<(String, String)>) -> (r:
    Option<String>)
    ensures
        crate::text::opt_view(r) == lookup(
            docs_view(docs@),
            module_doc_path(parsed.path@, parsed.mod_path@, docs_root@),
        ),
{
    let path = module_doc_path_of(parsed, docs_root);
    lookup_doc(docs, &path)
}

/// Appends one doc attribute per line of a markdown text, each line after
/// `prefix`.
fn push_doc_attrs(out: &mut Vec<char>, content: &str, prefix: &str)
    ensures
        final(out)@ == old(out)@ + doc_attrs_of(content@, prefix@),
{
    let v = chars_of(content);
    let j = trim_end_index(&v, v.len());
    assert(v@.take(v.len() as int) == v@);
    let trimmed = crate::text::string_of(&crate::text::copy_chars(&v, 0, j));
    let ls = lines_of(trimmed.as_str());
    let ghost l = vecs_view(ls@);
    let ghost start = out@;
    let mut i: usize = 0;
    while i < ls.len()
        invariant
            i <= ls.len(),
            l == vecs_view(ls@),
            l == lines(trim_end(content@)),
            out@ == start + doc_attr_lines(prefix@, l.take(i as int)),
        decreases ls.len() - i,
    {
        assert(l.take(i + 1).drop_last() == l.take(i as int));
        assert(l.take(i + 1).last() == ls@[i as int]@);
        let mut comment = chars_of(prefix);
        append_chars(&mut comment, &ls[i]);
        let lit = literal_token(crate::text::string_of(&comment).as_str());
        push_text(out, "# [doc = ");
        append_chars(out, &chars_of(lit.as_str()));
        push_text(out, "] ");
        i = i + 1;
    }
    assert(l.take(ls.len() as int) == l);
}

/// Doc attributes (`/// ` lines) for a markdown text.
pub fn generate_doc_comments(content: &str) -> (r: Vec<char>)
    ensures
        r@ == doc_attrs_of(content@, "/// "@),
{
    let mut out: Vec<char> = Vec::new();
    push_doc_attrs(&mut out, content, "/// ");
    out
}

/// Doc attributes (`//! ` lines) for a module's markdown text.
pub fn generate_module_doc_comments(content: &str) -> (r: Vec<char>)
    ensures
        r@ == doc_attrs_of(content@, "//! "@),
{
    let mut out: Vec<char> = Vec::new();
    push_doc_attrs(&mut out, content, "//! ");
    out
}

/// Whether an attribute is an omnidoc attribute (spaces ignored).
pub fn is_omnidoc_attr(attr: &Attribute) -> (b: bool)
    ensures
        b == is_omnidoc(attr.tokens@),
{
    let t = no_spaces_chars(&chars_of(attr.tokens.as_str()));
    contains_chars(&t, &chars_of("omnidoc")) || contains_chars(&t, &chars_of("syncdoc::omnidoc"))
}

/// Whether any inner attribute holds a module documentation macro (spaces
/// ignored).
pub fn is_module_doc_macro(inner_attrs: &Vec<InnerAttribute>) -> (b: bool)
    ensures
        b == exists|i: int|
            0 <= i < inner_attrs@.len() && contains(
                no_spaces(#[trigger] inner_attrs@[i].tokens@),
                "module_doc!"@,
            ),
{
    let mut i: usize = 0;
    while i < inner_attrs.len()
        invariant
            i <= inner_attrs.len(),
            forall|k: int|
                0 <= k < i ==> !contains(no_spaces(#[trigger] inner_attrs@[k].tokens@), "module_doc!"@),
        decreases inner_attrs.len() - i,
    {
        let t = no_spaces_chars(&chars_of(inner_attrs[i].tokens.as_str()));
        if contains_chars(&t, &chars_of("module_doc!")) {
            return true;
        }
        i = i + 1;
    }
    false
}

/// Appends the attributes that are not omnidoc attributes.
pub fn add_non_omnidoc_attrs(attrs: &Option<Vec<Attribute>>, output: &mut Vec<char>)
    ensures
        final(output)@ == old(output)@ + kept_attrs(*attrs),
{
    if let Some(list) = attrs {
        let ghost a = list@.map_values(|x: Attribute| x.tokens@);
        let ghost start = output@;
        let mut i: usize = 0;
        while i < list.len()
            invariant
                i <= list.len(),
                a == list@.map_values(|x: Attribute| x.tokens@),
                a.len() == list.len(),
                output@ == start + toks(non_omnidoc(a.take(i as int))),
            decreases list.len() - i,
        {
            assert(a.take(i + 1).drop_last() == a.take(i as int));
            assert(a.take(i + 1).last() == list@[i as int].tokens@);
            let ghost prev = non_omnidoc(a.take(i as int));
            if !is_omnidoc_attr(&list[i]) {
                push_tok(output, &list[i].tokens);
                assert(prev.push(a[i as int]).drop_last() == prev);
            }
            i = i + 1;
        }
        assert(a.take(list.len() as int) == a);
    } else {
        assert(output@ + Seq::<char>::empty() == output@);
    }
}

/// Appends an item's restored attributes.
fn push_restored_attrs(
    out: &mut Vec<char>,
    attrs: &Option<Vec<Attribute>>,
    docs: &Vec<(String, String)>,
    root: &str,
    ctx: &Vec<String>,
    name: &String,
)
    ensures
        final(out)@ == old(out)@ + restored_attrs(
            *attrs,
            docs_view(docs@),
            root@,
            strings_view(ctx@),
            name@,
        ),
{
    let ghost start = out@;
    match read_item_markdown(ctx, name, root, docs) {
        Some(content) => push_doc_attrs(out, content.as_str(), "/// "),
        None => {},
    }
    add_non_omnidoc_attrs(attrs, out);
}

fn inject_field(
    out: &mut Vec<char>,
    f: &Field,
    docs: &Vec<(String, String)>,
    root: &str,
    ctx: &Vec<String>,
)
    ensures
        final(out)@ == old(out)@ + restore_field_tokens(
            *f,
            docs_view(docs@),
            root@,
            strings_view(ctx@),
        ),
{
    push_restored_attrs(out, &f.attrs, docs, root, ctx, &f.name);
    push_tok(out, &f.visibility);
    push_tok(out, &f.name);
    push_text(out, ": ");
    push_tok(out, &f.field_type);
}

/// Appends named fields with their documentation restored (`ctx` ends with
/// the struct's name, or the enum's and the variant's).
fn inject_struct_fields(
    out: &mut Vec<char>,
    fields: &Option<Vec<Field>>,
    docs: &Vec<(String, String)>,
    root: &str,
    ctx: &Vec<String>,
)
    ensures
        final(out)@ == old(out)@ + restore_braced_fields(
            *fields,
            docs_view(docs@),
            root@,
            strings_view(ctx@),
        ),
{
    match fields {
        Some(fs) => {
            push_text(out, "{ ");
            let ghost start = out@;
            let ghost c = strings_view(ctx@);
            let mut i: usize = 0;
            while i < fs.len()
                invariant
                    i <= fs.len(),
                    c == strings_view(ctx@),
                    out@ == start + restore_fields_tokens(
                        fs@.take(i as int),
                        docs_view(docs@),
                        root@,
                        c,
                    ),
                decreases fs.len() - i,
            {
                assert(fs@.take(i + 1).drop_last() == fs@.take(i as int));
                assert(fs@.take(i + 1).last() == fs@[i as int]);
                if i > 0 {
                    push_text(out, ", ");
                }
                inject_field(out, &fs[i], docs, root, ctx);
                i = i + 1;
            }
            assert(fs@.take(fs.len() as int) == fs@);
            push_text(out, "} ");
        },
        None => push_text(out, "{ } "),
    }
}

/// Appends the variants of an enum with their documentation restored
/// (`ctx` ends with the enum's name).
fn inject_enum_variants(
    out: &mut Vec<char>,
    vs: &Vec<Variant>,
    docs: &Vec<(String, String)>,
    root: &str,
    ctx: &Vec<String>,
)
    ensures
        final(out)@ == old(out)@ + restore_variants_tokens(
            vs@,
            docs_view(docs@),
            root@,
            strings_view(ctx@),
        ),
{
    let ghost start = out@;
    let ghost c = strings_view(ctx@);
    let mut i: usize = 0;
    while i < vs.len()
        invariant
            i <= vs.len(),
            c == strings_view(ctx@),
            out@ == start + restore_variants_tokens(vs@.take(i as int), docs_view(docs@), root@, c),
        decreases vs.len() - i,
    {
        assert(vs@.take(i + 1).drop_last() == vs@.take(i as int));
        assert(vs@.take(i + 1).last() == vs@[i as int]);
        if i > 0 {
            push_text(out, ", ");
        }
        let v = &vs[i];
        let ghost before = out@;
        push_restored_attrs(out, &v.attrs, docs, root, ctx, &v.name);
        push_tok(out, &v.name);
        match &v.data {
            Some(VariantData::Struct(fs)) => {
                let inner = extend_context(ctx, &v.name);
                inject_struct_fields(out, fs, docs, root, &inner);
            },
            Some(VariantData::Other(t)) => push_tok(out, t),
            None => {},
        }
        i = i + 1;
    }
    assert(vs@.take(vs.len() as int) == vs@);
}

fn inject_function_docs(
    out: &mut Vec<char>,
    s: &Signature,
    docs: &Vec<(String, String)>,
    root: &str,
    ctx: &Vec<String>,
)
    ensures
        final(out)@ == old(out)@ + restore_sig_tokens(
            *s,
            docs_view(docs@),
            root@,
            strings_view(ctx@),
        ),
{
    push_restored_attrs(out, &s.attrs, docs, root, ctx, &s.name);
    push_tok(out, &s.head);
    push_tok(out, &s.name);
    push_tok(out, &s.tail);
}

fn inject_struct_docs(
    out: &mut Vec<char>,
    s: &StructDef,
    docs: &Vec<(String, String)>,
    root: &str,
    ctx: &Vec<String>,
)
    ensures
        final(out)@ == old(out)@ + restore_struct_tokens(
            *s,
            docs_view(docs@),
            root@,
            strings_view(ctx@),
        ),
{
    push_restored_attrs(out, &s.attrs, docs, root, ctx, &s.name);
    push_tok(out, &s.head);
    push_tok(out, &s.name);
    push_tok(out, &s.generics);
    match &s.body {
        StructBody::Named(fs) => {
            let inner = extend_context(ctx, &s.name);
            inject_struct_fields(out, fs, docs, root, &inner);
        },
        StructBody::Tuple(t) => push_tok(out, t),
        StructBody::Unit => push_text(out, "; "),
    }
}

fn inject_enum_docs(
    out: &mut Vec<char>,
    e: &EnumDef,
    docs: &Vec<(String, String)>,
    root: &str,
    ctx: &Vec<String>,
)
    ensures
        final(out)@ == old(out)@ + restore_enum_tokens(
            *e,
            docs_view(docs@),
            root@,
            strings_view(ctx@),
        ),
{
    push_restored_attrs(out, &e.attrs, docs, root, ctx, &e.name);
    push_tok(out, &e.head);
    push_tok(out, &e.name);
    push_tok(out, &e.generics);
    push_text(out, "{ ");
    match &e.variants {
        Some(vs) => {
            let inner = extend_context(ctx, &e.name);
            inject_enum_variants(out, vs, docs, root, &inner);
        },
        None => {},
    }
    push_text(out, "} ");
}

fn inject_items_docs(
    out: &mut Vec<char>,
    items: &Vec<ModuleItem>,
    docs: &Vec<(String, String)>,
    root: &str,
    ctx: &Vec<String>,
)
    ensures
        final(out)@ == old(out)@ + restore_items_tokens(
            items@,
            docs_view(docs@),
            root@,
            strings_view(ctx@),
        ),
    decreases items@, 1nat,
{
    let ghost start = out@;
    let ghost c = strings_view(ctx@);
    let mut i: usize = 0;
    while i < items.len()
        invariant
            i <= items.len(),
            c == strings_view(ctx@),
            out@ == start + restore_items_tokens(items@.take(i as int), docs_view(docs@), root@, c),
        decreases items.len() - i,
    {
        assert(items@.take(i + 1).drop_last() == items@.take(i as int));
        assert(items@.take(i + 1).last() == items@[i as int]);
        proof {
            assert(decreases_to!(items@ => items@[i as int]));
        }
        inject_item_docs(out, &items[i], docs, root, ctx);
        i = i + 1;
    }
    assert(items@.take(items.len() as int) == items@);
}

/// Appends an item's tokens with its documentation restored from the
/// markdown files at hand.
#[verifier::spinoff_prover]
#[verifier::rlimit(40)]
pub fn inject_item_docs(
    out: &mut Vec<char>,
    item: &ModuleItem,
    docs: &Vec<(String, String)>,
    root: &str,
    ctx: &Vec<String>,
)
    ensures
        final(out)@ == old(out)@ + restore_item_tokens(
            *item,
            docs_view(docs@),
            root@,
            strings_view(ctx@),
        ),
    decreases *item, 0nat,
{
    let ghost start = out@;
    match item {
        ModuleItem::Function(s) | ModuleItem::TraitMethod(s) | ModuleItem::TypeAlias(s)
        | ModuleItem::Const(s) | ModuleItem::Static(s) => inject_function_docs(
            out,
            s,
            docs,
            root,
            ctx,
        ),
        ModuleItem::Struct(s) => inject_struct_docs(out, s, docs, root, ctx),
        ModuleItem::Enum(e) => inject_enum_docs(out, e, docs, root, ctx),
        ModuleItem::Module(m) | ModuleItem::Trait(m) => {
            push_restored_attrs(out, &m.attrs, docs, root, ctx, &m.name);
            push_tok(out, &m.head);
            push_tok(out, &m.name);
            push_tok(out, &m.generics);
            push_text(out, "{ ");
            let inner = extend_context(ctx, &m.name);
            proof {
                if item is Module {
                    assert(decreases_to!(*item => (*item)->Module_0));
                } else {
                    assert(decreases_to!(*item => (*item)->Trait_0));
                }
                assert(decreases_to!(*m => m.body));
                assert(decreases_to!(m.body => m.body.items));
                assert(decreases_to!(m.body.items => m.body.items@));
            }
            inject_items_docs(out, &m.body.items, docs, root, &inner);
            push_text(out, "} ");
        },
        ModuleItem::ImplBlock(b) => {
            add_non_omnidoc_attrs(&b.attrs, out);
            push_tok(out, &b.head);
            push_text(out, "{ ");
            let mut inner = ctx.clone();
            extend_impl_context(&mut inner, b, ctx);
            proof {
                assert(decreases_to!(*item => (*item)->ImplBlock_0));
                assert(decreases_to!(*b => b.body));
                assert(decreases_to!(b.body => b.body.items));
                assert(decreases_to!(b.body.items => b.body.items@));
            }
            inject_items_docs(out, &b.body.items, docs, root, &inner);
            push_text(out, "} ");
        },
        ModuleItem::Other(t) => push_tok(out, t),
    }
    assert(out@ == start + restore_item_tokens(*item, docs_view(docs@), root@, strings_view(ctx@)));
}

/// Restores a whole file: its module documentation from markdown, its
/// inner attributes other than documentation, then its items with their
/// documentation restored.
pub fn inject_all_doc_comments(
    parsed: &ParsedFile,
    docs_root: &str,
    docs: &Vec<(String, String)>,
) -> (r: Vec<char>)
    ensures
        r@ == restored_file_tokens(*parsed, docs_view(docs@), docs_root@),
{
    let mut out: Vec<char> = Vec::new();
    match read_module_doc(parsed, docs_root, docs) {
        Some(content) => push_doc_attrs(&mut out, content.as_str(), "//! "),
        None => {},
    }
    if let Some(list) = &parsed.content.inner_attrs {
        let ghost a = list@.map_values(|x: InnerAttribute| x.tokens@);
        let ghost start = out@;
        let mut i: usize = 0;
        while i < list.len()
            invariant
                i <= list.len(),
                a == list@.map_values(|x: InnerAttribute| x.tokens@),
                a.len() == list.len(),
                out@ == start + toks(kept_inner(a.take(i as int))),
            decreases list.len() - i,
        {
            assert(a.take(i + 1).drop_last() == a.take(i as int));
            assert(a.take(i + 1).last() == list@[i as int].tokens@);
            let t = no_spaces_chars(&chars_of(list[i].tokens.as_str()));
            let dropped = contains_chars(&t, &chars_of("module_doc!")) || contains_chars(
                &t,
                &chars_of("#[doc="),
            ) || contains_chars(&t, &chars_of("#![doc="));
            let ghost prev = kept_inner(a.take(i as int));
            if !dropped {
                push_tok(&mut out, &list[i].tokens);
                assert(prev.push(a[i as int]).drop_last() == prev);
            }
            i = i + 1;
        }
        assert(a.take(list.len() as int) == a);
    }
    let ctx = file_context_of(parsed);
    inject_items_docs(&mut out, &parsed.content.items, docs, docs_root, &ctx);
    out
}

/// Two sets of markdown files give the same content at every path of `es`.
pub open spec fn agree_on(
    d1: Seq<(Seq<char>, Seq<char>)>,
    d2: Seq<(Seq<char>, Seq<char>)>,
    es: Seq<(Seq<char>, Seq<char>, Seq<char>)>,
) -> bool {
    forall|i: int| 0 <= i < es.len() ==> lookup(d1, (#[trigger] es[i]).0) == lookup(d2, es[i].0)
}

proof fn lemma_agree_split(
    d1: Seq<(Seq<char>, Seq<char>)>,
    d2: Seq<(Seq<char>, Seq<char>)>,
    a: Seq<(Seq<char>, Seq<char>, Seq<char>)>,
    b: Seq<(Seq<char>, Seq<char>, Seq<char>)>,
)
    requires
        agree_on(d1, d2, a + b),
    ensures
        agree_on(d1, d2, a),
        agree_on(d1, d2, b),
{
    assert forall|i: int| 0 <= i < a.len() implies lookup(d1, (#[trigger] a[i]).0) == lookup(
        d2,
        a[i].0,
    ) by {
        assert((a + b)[i] == a[i]);
    }
    assert forall|i: int| 0 <= i < b.len() implies lookup(d1, (#[trigger] b[i]).0) == lookup(
        d2,
        b[i].0,
    ) by {
        assert((a + b)[a.len() + i] == b[i]);
    }
}

proof fn lemma_entry_agree(
    d1: Seq<(Seq<char>, Seq<char>)>,
    d2: Seq<(Seq<char>, Seq<char>)>,
    root: Seq<char>,
    ctx: Seq<Seq<char>>,
    name: Seq<char>,
    file: Seq<char>,
    line: nat,
)
    requires
        agree_on(d1, d2, expect_entry(root, ctx, name, file, line)),
    ensures
        item_doc_attrs(d1, root, ctx, name) == item_doc_attrs(d2, root, ctx, name),
{
    assert(expect_entry(root, ctx, name, file, line)[0].0 == doc_path(root, ctx, name));
}

proof fn lemma_fields_agree(
    fs: Seq<Field>,
    d1: Seq<(Seq<char>, Seq<char>)>,
    d2: Seq<(Seq<char>, Seq<char>)>,
    root: Seq<char>,
    ctx: Seq<Seq<char>>,
    file: Seq<char>,
)
    requires
        agree_on(d1, d2, fields_expected(fs, root, ctx, file)),
    ensures
        restore_fields_tokens(fs, d1, root, ctx) == restore_fields_tokens(fs, d2, root, ctx),
    decreases fs.len(),
{
    if fs.len() > 0 {
        let f = fs.last();
        lemma_agree_split(
            d1,
            d2,
            fields_expected(fs.drop_last(), root, ctx, file),
            expect_entry(root, ctx, f.name@, file, f.line as nat),
        );
        lemma_fields_agree(fs.drop_last(), d1, d2, root, ctx, file);
        lemma_entry_agree(d1, d2, root, ctx, f.name@, file, f.line as nat);
    }
}

proof fn lemma_opt_fields_agree(
    fs: Option<Vec<Field>>,
    d1: Seq<(Seq<char>, Seq<char>)>,
    d2: Seq<(Seq<char>, Seq<char>)>,
    root: Seq<char>,
    ctx: Seq<Seq<char>>,
    file: Seq<char>,
)
    requires
        agree_on(d1, d2, opt_fields_expected(fs, root, ctx, file)),
    ensures
        restore_braced_fields(fs, d1, root, ctx) == restore_braced_fields(fs, d2, root, ctx),
{
    if let Some(f) = fs {
        lemma_fields_agree(f@, d1, d2, root, ctx, file);
    }
}

proof fn lemma_variants_agree(
    vs: Seq<Variant>,
    d1: Seq<(Seq<char>, Seq<char>)>,
    d2: Seq<(Seq<char>, Seq<char>)>,
    root: Seq<char>,
    ctx: Seq<Seq<char>>,
    file: Seq<char>,
)
    requires
        agree_on(d1, d2, variants_expected(vs, root, ctx, file)),
    ensures
        restore_variants_tokens(vs, d1, root, ctx) == restore_variants_tokens(vs, d2, root, ctx),
    decreases vs.len(),
{
    if vs.len() > 0 {
        let v = vs.last();
        let pre = variants_expected(vs.drop_last(), root, ctx, file);
        let entry = expect_entry(root, ctx, v.name@, file, v.line as nat);
        let rest = match v.data {
            Some(VariantData::Struct(fs)) => opt_fields_expected(fs, root, ctx.push(v.name@), file),
            _ => Seq::empty(),
        };
        assert(variants_expected(vs, root, ctx, file) == pre + (entry + rest));
        lemma_agree_split(d1, d2, pre, entry + rest);
        lemma_agree_split(d1, d2, entry, rest);
        lemma_variants_agree(vs.drop_last(), d1, d2, root, ctx, file);
        lemma_entry_agree(d1, d2, root, ctx, v.name@, file, v.line as nat);
        if let Some(VariantData::Struct(fs)) = v.data {
            lemma_opt_fields_agree(fs, d1, d2, root, ctx.push(v.name@), file);
        }
    }
}

proof fn lemma_item_agree(
    item: ModuleItem,
    d1: Seq<(Seq<char>, Seq<char>)>,
    d2: Seq<(Seq<char>, Seq<char>)>,
    root: Seq<char>,
    ctx: Seq<Seq<char>>,
    file: Seq<char>,
)
    requires
        agree_on(d1, d2, item_expected(item, root, ctx, file)),
    ensures
        restore_item_tokens(item, d1, root, ctx) == restore_item_tokens(item, d2, root, ctx),
    decreases item, 0nat,
{
    match item {
        ModuleItem::Function(s) => lemma_entry_agree(d1, d2, root, ctx, s.name@, file, s.line as nat),
        ModuleItem::TraitMethod(s) => lemma_entry_agree(d1, d2, root, ctx, s.name@, file, s.line as nat),
        ModuleItem::TypeAlias(s) => lemma_entry_agree(d1, d2, root, ctx, s.name@, file, s.line as nat),
        ModuleItem::Const(s) => lemma_entry_agree(d1, d2, root, ctx, s.name@, file, s.line as nat),
        ModuleItem::Static(s) => lemma_entry_agree(d1, d2, root, ctx, s.name@, file, s.line as nat),
        ModuleItem::Struct(s) => {
            let entry = expect_entry(root, ctx, s.name@, file, s.line as nat);
            let rest = match s.body {
                StructBody::Named(fs) => opt_fields_expected(fs, root, ctx.push(s.name@), file),
                _ => Seq::empty(),
            };
            lemma_agree_split(d1, d2, entry, rest);
            lemma_entry_agree(d1, d2, root, ctx, s.name@, file, s.line as nat);
            if let StructBody::Named(fs) = s.body {
                lemma_opt_fields_agree(fs, d1, d2, root, ctx.push(s.name@), file);
            }
        },
        ModuleItem::Enum(e) => {
            let entry = expect_entry(root, ctx, e.name@, file, e.line as nat);
            let rest = match e.variants {
                Some(vs) => variants_expected(vs@, root, ctx.push(e.name@), file),
                None => Seq::empty(),
            };
            lemma_agree_split(d1, d2, entry, rest);
            lemma_entry_agree(d1, d2, root, ctx, e.name@, file, e.line as nat);
            if let Some(vs) = e.variants {
                lemma_variants_agree(vs@, d1, d2, root, ctx.push(e.name@), file);
            }
        },
        ModuleItem::Module(m) => {
            assert(decreases_to!(item => m));
            assert(decreases_to!(m => m.body));
            assert(decreases_to!(m.body => m.body.items));
            assert(decreases_to!(m.body.items => m.body.items@));
            lemma_agree_split(
                d1,
                d2,
                expect_entry(root, ctx, m.name@, file, m.line as nat),
                items_expected(m.body.items@, root, ctx.push(m.name@), file),
            );
            lemma_entry_agree(d1, d2, root, ctx, m.name@, file, m.line as nat);
            lemma_items_agree(m.body.items@, d1, d2, root, ctx.push(m.name@), file);
        },
        ModuleItem::Trait(m) => {
            assert(decreases_to!(item => m));
            assert(decreases_to!(m => m.body));
            assert(decreases_to!(m.body => m.body.items));
            assert(decreases_to!(m.body.items => m.body.items@));
            lemma_agree_split(
                d1,
                d2,
                expect_entry(root, ctx, m.name@, file, m.line as nat),
                items_expected(m.body.items@, root, ctx.push(m.name@), file),
            );
            lemma_entry_agree(d1, d2, root, ctx, m.name@, file, m.line as nat);
            lemma_items_agree(m.body.items@, d1, d2, root, ctx.push(m.name@), file);
        },
        ModuleItem::ImplBlock(b) => {
            assert(decreases_to!(item => b));
            assert(decreases_to!(b => b.body));
            assert(decreases_to!(b.body => b.body.items));
            assert(decreases_to!(b.body.items => b.body.items@));
            lemma_items_agree(b.body.items@, d1, d2, root, ctx + impl_context(b), file);
        },
        ModuleItem::Other(_) => {},
    }
}

proof fn lemma_items_agree(
    items: Seq<ModuleItem>,
    d1: Seq<(Seq<char>, Seq<char>)>,
    d2: Seq<(Seq<char>, Seq<char>)>,
    root: Seq<char>,
    ctx: Seq<Seq<char>>,
    file: Seq<char>,
)
    requires
        agree_on(d1, d2, items_expected(items, root, ctx, file)),
    ensures
        restore_items_tokens(items, d1, root, ctx) == restore_items_tokens(items, d2, root, ctx),
    decreases items, 1nat,
{
    if items.len() > 0 {
        assert(decreases_to!(items => items.drop_last()));
        assert(decreases_to!(items => items.last()));
        lemma_agree_split(
            d1,
            d2,
            items_expected(items.drop_last(), root, ctx, file),
            item_expected(items.last(), root, ctx, file),
        );
        lemma_items_agree(items.drop_last(), d1, d2, root, ctx, file);
        lemma_item_agree(items.last(), d1, d2, root, ctx, file);
    }
}

/// A restore reads markdown files only at the paths that the file's
/// structure calls for: two sets of markdown files that agree at every
/// expected path give the same restored file.
pub proof fn lemma_restore_reads_expected_paths(
    parsed: ParsedFile,
    root: Seq<char>,
    d1: Seq<(Seq<char>, Seq<char>)>,
    d2: Seq<(Seq<char>, Seq<char>)>,
)
    requires
        agree_on(d1, d2, all_expected(parsed, root)),
    ensures
        restored_file_tokens(parsed, d1, root) == restored_file_tokens(parsed, d2, root),
{
    let head = seq![
        (
            module_doc_path(parsed.path@, parsed.mod_path@, root),
            crate::text::with_final_newline(Seq::<char>::empty()),
            parsed.path@ + ":1"@,
        ),
    ];
    let rest = items_expected(
        parsed.content.items@,
        root,
        file_context(parsed.mod_path@),
        parsed.path@,
    );
    assert(all_expected(parsed, root) == head + rest);
    lemma_agree_split(d1, d2, head, rest);
    assert(head[0].0 == module_doc_path(parsed.path@, parsed.mod_path@, root));
    lemma_items_agree(
        parsed.content.items@,
        d1,
        d2,
        root,
        file_context(parsed.mod_path@),
        parsed.path@,
    );
}

/// The doc attribute that holds one line after `prefix`.
pub open spec fn doc_attr_of_line(prefix: Seq<char>, line: Seq<char>) -> Seq<char> {
    "# [doc = "@ + string_literal_token(prefix + line) + "] "@
}

proof fn lemma_doc_attr_lines_flat(prefix: Seq<char>, ls: Seq<Seq<char>>)
    ensures
        doc_attr_lines(prefix, ls) == Seq::new(ls.len(), |i: int| doc_attr_of_line(prefix, ls[i])).flatten_alt(),
    decreases ls.len(),
{
    let f = Seq::new(ls.len(), |i: int| doc_attr_of_line(prefix, ls[i]));
    if ls.len() > 0 {
        lemma_doc_attr_lines_flat(prefix, ls.drop_last());
        let g = Seq::new(ls.drop_last().len(), |i: int| doc_attr_of_line(prefix, ls.drop_last()[i]));
        assert(f.drop_last() =~= g);
        assert(f.last() == doc_attr_of_line(prefix, ls.last()));
    } else {
        assert(f.flatten_alt() == Seq::<char>::empty());
    }
}

/// Restoring a markdown text writes exactly one doc attribute per line of
/// the text (trailing whitespace of the text dropped), in order, blank
/// lines included, each holding `prefix` and its line: paragraph breaks
/// survive as `prefix`-only doc lines.
pub proof fn lemma_doc_attrs_one_per_line(content: Seq<char>, prefix: Seq<char>)
    ensures
        doc_attrs_of(content, prefix) == Seq::new(
            lines(trim_end(content)).len(),
            |i: int| doc_attr_of_line(prefix, lines(trim_end(content))[i]),
        ).flatten(),
{
    let ls = lines(trim_end(content));
    lemma_doc_attr_lines_flat(prefix, ls);
    Seq::new(ls.len(), |i: int| doc_attr_of_line(prefix, ls[i])).lemma_flatten_and_flatten_alt_are_equivalent();
}

} // verus!
