//! Extraction of the documentation of a parsed file: one markdown file per
//! documented item, at a path that follows the item's place in the code.
use vstd::prelude::*;

use crate::discover::ParsedFile;
use crate::extract::{
    attrs_view, doc_content, extract_doc_content, extract_inner_doc_content,
    inner_attrs_view, inner_opener, outer_opener, Attribute,
};
use crate::syntax::{
    Field, ImplBlock, ModuleItem, StructBody, Variant, VariantData,
};
use crate::text::{
    append_chars, chars_of, ends_with_chars, join, join_sep, newline, opt_view,
    push_char, string_of, strings_view, vecs_view, with_final_newline,
};

pub mod expected;

verus! {

/// A documentation file to write: where, what, and where it came from.
#[derive(Debug, Clone, PartialEq)]
pub struct DocExtraction {
    /// Path of the markdown file.
    pub markdown_path: String,
    /// The documentation to write.
    pub content: String,
    /// Where the documentation came from, as `file:line`.
    pub source_location: String,
}

impl DocExtraction {
    /// A documentation file whose content ends with a newline (one is
    /// added when it does not).
    pub fn new(markdown_path: String, content: String, source_location: String) -> (r: Self)
        ensures
            r.markdown_path == markdown_path,
            r.content@ == with_final_newline(content@),
            r.source_location == source_location,
    {
        let mut content = content;
        let v = chars_of(content.as_str());
        let mut nl: Vec<char> = Vec::new();
        nl.push('\n');
        if !ends_with_chars(&v, &nl) {
            push_char(&mut content, '\n');
        }
        DocExtraction { markdown_path, content, source_location }
    }
}

/// The outcome of writing documentation files.
#[derive(Debug)]
pub struct WriteReport {
    pub files_written: usize,
    pub files_skipped: usize,
    pub errors: Vec<String>,
}

impl Default for WriteReport {
    fn default() -> (r: Self)
        ensures
            r.files_written == 0,
            r.files_skipped == 0,
            r.errors@.len() == 0,
    {
        WriteReport { files_written: 0, files_skipped: 0, errors: Vec::new() }
    }
}

/// What happened to one step of writing documentation files.
pub enum WriteOutcome {
    /// A file was written (or would be, in a dry run).
    Written,
    /// Writing a file failed, with the message to report.
    WriteFailed(String),
    /// Creating a directory failed, with the message to report.
    DirFailed(String),
}

impl WriteReport {
    /// Records one outcome: a written file counts as written, a failed
    /// write as skipped with its message, a failed directory only with its
    /// message.
    pub fn record(&mut self, outcome: WriteOutcome)
        requires
            old(self).files_written < usize::MAX,
            old(self).files_skipped < usize::MAX,
        ensures
            match outcome {
                WriteOutcome::Written => {
                    &&& final(self).files_written == old(self).files_written + 1
                    &&& final(self).files_skipped == old(self).files_skipped
                    &&& final(self).errors@ == old(self).errors@
                },
                WriteOutcome::WriteFailed(m) => {
                    &&& final(self).files_written == old(self).files_written
                    &&& final(self).files_skipped == old(self).files_skipped + 1
                    &&& final(self).errors@ == old(self).errors@.push(m)
                },
                WriteOutcome::DirFailed(m) => {
                    &&& final(self).files_written == old(self).files_written
                    &&& final(self).files_skipped == old(self).files_skipped
                    &&& final(self).errors@ == old(self).errors@.push(m)
                },
            },
    {
        match outcome {
            WriteOutcome::Written => {
                self.files_written = self.files_written + 1;
            },
            WriteOutcome::WriteFailed(m) => {
                self.errors.push(m);
                self.files_skipped = self.files_skipped + 1;
            },
            WriteOutcome::DirFailed(m) => {
                self.errors.push(m);
            },
        }
    }
}

/// A documentation file as plain values: path, content, source location.
pub open spec fn ext_view(e: DocExtraction) -> (Seq<char>, Seq<char>, Seq<char>) {
    (e.markdown_path@, e.content@, e.source_location@)
}

pub open spec fn exts_view(v: Seq<DocExtraction>) -> Seq<(Seq<char>, Seq<char>, Seq<char>)> {
    v.map_values(|e: DocExtraction| ext_view(e))
}

/// The character of a decimal digit.
pub open spec fn digit_char(d: int) -> char {
    ((d + 48) as u8) as char
}

/// The decimal representation of a number.
pub open spec fn decimal(n: nat) -> Seq<char>
    decreases n,
{
    if n < 10 {
        seq![digit_char(n as int)]
    } else {
        decimal(n / 10).push(digit_char((n % 10) as int))
    }
}

/// A source location, `file:line`.
pub open spec fn location(file: Seq<char>, line: nat) -> Seq<char> {
    file + seq![':'] + decimal(line)
}

/// The markdown path of an item: the base, the context and the item's name
/// with `.md`, joined by `/`.
pub open spec fn doc_path(base: Seq<char>, ctx: Seq<Seq<char>>, name: Seq<char>) -> Seq<char> {
    join(seq![base] + ctx + seq![name + ".md"@], seq!['/'])
}

fn decimal_exec(n: usize) -> (r: Vec<char>)
    ensures
        r@ == decimal(n as nat),
    decreases n,
{
    let d = (n % 10) as u8;
    let c = (48u8 + d) as char;
    assert(c == digit_char((n % 10) as int));
    let mut v = if n < 10 {
        Vec::new()
    } else {
        decimal_exec(n / 10)
    };
    v.push(c);
    v
}

/// `file:line`.
pub(crate) fn location_of(file: &str, line: usize) -> (r: String)
    ensures
        r@ == location(file@, line as nat),
{
    let mut v = chars_of(file);
    v.push(':');
    append_chars(&mut v, &decimal_exec(line));
    string_of(&v)
}

/// Builds the markdown path of an item: the base path, the context and the
/// item's name with `.md`, joined by `/`.
pub fn build_path(base_path: &str, context: &[String], item_name: &str) -> (r: String)
    ensures
        r@ == doc_path(base_path@, strings_view(context@), item_name@),
{
    let mut parts: Vec<Vec<char>> = Vec::new();
    parts.push(chars_of(base_path));
    let mut i: usize = 0;
    while i < context.len()
        invariant
            i <= context@.len(),
            vecs_view(parts@) == seq![base_path@] + strings_view(context@.take(i as int)),
        decreases context@.len() - i,
    {
        let ghost before = parts@;
        parts.push(chars_of(context[i].as_str()));
        assert(vecs_view(parts@) == vecs_view(before).push(context@[i as int]@));
        assert(strings_view(context@.take(i + 1)) == strings_view(context@.take(i as int)).push(
            context@[i as int]@,
        ));
        i = i + 1;
    }
    assert(context@.take(context@.len() as int) == context@);
    let mut last = chars_of(item_name);
    append_chars(&mut last, &chars_of(".md"));
    let ghost before = parts@;
    parts.push(last);
    assert(vecs_view(parts@) == vecs_view(before).push(last@));
    assert(vecs_view(parts@) == seq![base_path@] + strings_view(context@) + seq![
        item_name@ + ".md"@,
    ]);
    string_of(&join_sep(&parts, '/'))
}

/// The documentation file of one item: present when its attributes carry
/// documentation.
pub open spec fn doc_entry(
    attrs: Option<Vec<Attribute>>,
    base: Seq<char>,
    ctx: Seq<Seq<char>>,
    name: Seq<char>,
    file: Seq<char>,
    line: nat,
) -> Seq<(Seq<char>, Seq<char>, Seq<char>)> {
    match doc_content(attrs_view(attrs), outer_opener()) {
        Some(c) => seq![(doc_path(base, ctx, name), with_final_newline(c), location(file, line))],
        None => Seq::empty(),
    }
}

/// The documentation files of named fields, under `ctx`.
pub open spec fn fields_docs(
    fields: Seq<Field>,
    base: Seq<char>,
    ctx: Seq<Seq<char>>,
    file: Seq<char>,
) -> Seq<(Seq<char>, Seq<char>, Seq<char>)>
    decreases fields.len(),
{
    if fields.len() == 0 {
        Seq::empty()
    } else {
        let f = fields.last();
        fields_docs(fields.drop_last(), base, ctx, file) + doc_entry(
            f.attrs,
            base,
            ctx,
            f.name@,
            file,
            f.line as nat,
        )
    }
}

pub open spec fn opt_fields_docs(
    fields: Option<Vec<Field>>,
    base: Seq<char>,
    ctx: Seq<Seq<char>>,
    file: Seq<char>,
) -> Seq<(Seq<char>, Seq<char>, Seq<char>)> {
    match fields {
        Some(f) => fields_docs(f@, base, ctx, file),
        None => Seq::empty(),
    }
}

/// The documentation files of a variant and of its named fields.
pub open spec fn variant_docs(
    v: Variant,
    base: Seq<char>,
    ctx: Seq<Seq<char>>,
    file: Seq<char>,
) -> Seq<(Seq<char>, Seq<char>, Seq<char>)> {
    doc_entry(v.attrs, base, ctx, v.name@, file, v.line as nat) + match v.data {
        Some(VariantData::Struct(fs)) => opt_fields_docs(fs, base, ctx.push(v.name@), file),
        _ => Seq::empty(),
    }
}

pub open spec fn variants_docs(
    vs: Seq<Variant>,
    base: Seq<char>,
    ctx: Seq<Seq<char>>,
    file: Seq<char>,
) -> Seq<(Seq<char>, Seq<char>, Seq<char>)>
    decreases vs.len(),
{
    if vs.len() == 0 {
        Seq::empty()
    } else {
        variants_docs(vs.drop_last(), base, ctx, file) + variant_docs(vs.last(), base, ctx, file)
    }
}

/// An identifier, or `Unknown` when there is none.
pub open spec fn ident_or_unknown(o: Option<String>) -> Seq<char> {
    match o {
        Some(s) => s@,
        None => "Unknown"@,
    }
}

/// The context an impl block adds: `[Type, Trait]` for `impl Trait for
/// Type`, `[Type]` for `impl Type`.
pub open spec fn impl_context(b: ImplBlock) -> Seq<Seq<char>> {
    if b.has_for {
        seq![ident_or_unknown(b.for_ident), ident_or_unknown(b.target_ident)]
    } else {
        seq![ident_or_unknown(b.target_ident)]
    }
}

/// The documentation files of an item and of everything inside it, in
/// source order.
pub open spec fn item_docs(
    item: ModuleItem,
    base: Seq<char>,
    ctx: Seq<Seq<char>>,
    file: Seq<char>,
) -> Seq<(Seq<char>, Seq<char>, Seq<char>)>
    decreases item,
{
    match item {
        ModuleItem::Function(s) => doc_entry(s.attrs, base, ctx, s.name@, file, s.line as nat),
        ModuleItem::TraitMethod(s) => doc_entry(s.attrs, base, ctx, s.name@, file, s.line as nat),
        ModuleItem::TypeAlias(s) => doc_entry(s.attrs, base, ctx, s.name@, file, s.line as nat),
        ModuleItem::Const(s) => doc_entry(s.attrs, base, ctx, s.name@, file, s.line as nat),
        ModuleItem::Static(s) => doc_entry(s.attrs, base, ctx, s.name@, file, s.line as nat),
        ModuleItem::ImplBlock(b) => items_docs(b.body.items@, base, ctx + impl_context(b), file),
        ModuleItem::Module(m) => doc_entry(m.attrs, base, ctx, m.name@, file, m.line as nat)
            + items_docs(m.body.items@, base, ctx.push(m.name@), file),
        ModuleItem::Trait(m) => doc_entry(m.attrs, base, ctx, m.name@, file, m.line as nat)
            + items_docs(m.body.items@, base, ctx.push(m.name@), file),
        ModuleItem::Enum(e) => doc_entry(e.attrs, base, ctx, e.name@, file, e.line as nat)
            + match e.variants {
            Some(vs) => variants_docs(vs@, base, ctx.push(e.name@), file),
            None => Seq::empty(),
        },
        ModuleItem::Struct(s) => doc_entry(s.attrs, base, ctx, s.name@, file, s.line as nat)
            + match s.body {
            StructBody::Named(fs) => opt_fields_docs(fs, base, ctx.push(s.name@), file),
            _ => Seq::empty(),
        },
        ModuleItem::Other(_) => Seq::empty(),
    }
}

pub open spec fn items_docs(
    items: Seq<ModuleItem>,
    base: Seq<char>,
    ctx: Seq<Seq<char>>,
    file: Seq<char>,
) -> Seq<(Seq<char>, Seq<char>, Seq<char>)>
    decreases items,
{
    if items.len() == 0 {
        Seq::empty()
    } else {
        items_docs(items.drop_last(), base, ctx, file) + item_docs(items.last(), base, ctx, file)
    }
}

/// Appends one documentation file.
pub(crate) fn push_extraction(out: &mut Vec<DocExtraction>, e: DocExtraction)
    ensures
        exts_view(final(out)@) == exts_view(old(out)@).push(ext_view(e)),
{
    let ghost before = out@;
    out.push(e);
    assert(exts_view(out@) == exts_view(before).push(ext_view(e)));
}

/// The context with one more name.
pub(crate) fn extend_context(ctx: &Vec<String>, name: &String) -> (r: Vec<String>)
    ensures
        strings_view(r@) == strings_view(ctx@).push(name@),
{
    let mut r: Vec<String> = Vec::new();
    let mut i: usize = 0;
    while i < ctx.len()
        invariant
            i <= ctx.len(),
            strings_view(r@) == strings_view(ctx@.take(i as int)),
        decreases ctx.len() - i,
    {
        let ghost before = r@;
        r.push(ctx[i].clone());
        assert(strings_view(r@) == strings_view(before).push(ctx@[i as int]@));
        assert(strings_view(ctx@.take(i + 1)) == strings_view(ctx@.take(i as int)).push(
            ctx@[i as int]@,
        ));
        i = i + 1;
    }
    assert(ctx@.take(ctx.len() as int) == ctx@);
    let ghost before = r@;
    r.push(name.clone());
    assert(strings_view(r@) == strings_view(before).push(name@));
    r
}

/// Adds the documentation file of one item, when it has documentation.
fn push_doc_entry(
    attrs: &Option<Vec<Attribute>>,
    base: &str,
    ctx: &Vec<String>,
    name: &String,
    file: &str,
    line: usize,
    out: &mut Vec<DocExtraction>,
)
    ensures
        exts_view(final(out)@) == exts_view(old(out)@) + doc_entry(
            *attrs,
            base@,
            strings_view(ctx@),
            name@,
            file@,
            line as nat,
        ),
{
    if let Some(content) = extract_doc_content(attrs) {
        let path = build_path(base, ctx.as_slice(), name.as_str());
        let loc = location_of(file, line);
        push_extraction(out, DocExtraction::new(path, content, loc));
    } else {
        assert(exts_view(out@) + Seq::<(Seq<char>, Seq<char>, Seq<char>)>::empty() == exts_view(
            out@,
        ));
    }
}

/// Adds the documentation files of named fields.
fn push_field_docs(
    fields: &Vec<Field>,
    base: &str,
    ctx: &Vec<String>,
    file: &str,
    out: &mut Vec<DocExtraction>,
)
    ensures
        exts_view(final(out)@) == exts_view(old(out)@) + fields_docs(
            fields@,
            base@,
            strings_view(ctx@),
            file@,
        ),
{
    let ghost start = exts_view(out@);
    let mut i: usize = 0;
    while i < fields.len()
        invariant
            i <= fields.len(),
            exts_view(out@) == start + fields_docs(
                fields@.take(i as int),
                base@,
                strings_view(ctx@),
                file@,
            ),
        decreases fields.len() - i,
    {
        assert(fields@.take(i + 1).drop_last() == fields@.take(i as int));
        assert(fields@.take(i + 1).last() == fields@[i as int]);
        let f = &fields[i];
        push_doc_entry(&f.attrs, base, ctx, &f.name, file, f.line, out);
        i = i + 1;
    }
    assert(fields@.take(fields.len() as int) == fields@);
}

/// Adds the documentation files of the variants of an enum (`ctx` ends
/// with the enum's name).
fn push_variant_docs(
    variants: &Vec<Variant>,
    base: &str,
    ctx: &Vec<String>,
    file: &str,
    out: &mut Vec<DocExtraction>,
)
    ensures
        exts_view(final(out)@) == exts_view(old(out)@) + variants_docs(
            variants@,
            base@,
            strings_view(ctx@),
            file@,
        ),
{
    let ghost start = exts_view(out@);
    let ghost c = strings_view(ctx@);
    let mut i: usize = 0;
    while i < variants.len()
        invariant
            i <= variants.len(),
            c == strings_view(ctx@),
            exts_view(out@) == start + variants_docs(variants@.take(i as int), base@, c, file@),
        decreases variants.len() - i,
    {
        assert(variants@.take(i + 1).drop_last() == variants@.take(i as int));
        assert(variants@.take(i + 1).last() == variants@[i as int]);
        let v = &variants[i];
        let ghost before = exts_view(out@);
        push_doc_entry(&v.attrs, base, ctx, &v.name, file, v.line, out);
        let ghost mid = exts_view(out@);
        match &v.data {
            Some(VariantData::Struct(Some(fs))) => {
                let inner = extend_context(ctx, &v.name);
                push_field_docs(fs, base, &inner, file, out);
            },
            _ => {},
        }
        assert(exts_view(out@) == before + variant_docs(*v, base@, c, file@));
        i = i + 1;
    }
    assert(variants@.take(variants.len() as int) == variants@);
}

/// Adds the documentation files of the items of a body.
fn push_items_docs(
    items: &Vec<ModuleItem>,
    base: &str,
    ctx: &Vec<String>,
    file: &str,
    out: &mut Vec<DocExtraction>,
)
    ensures
        exts_view(final(out)@) == exts_view(old(out)@) + items_docs(
            items@,
            base@,
            strings_view(ctx@),
            file@,
        ),
    decreases items@, 1nat,
{
    let ghost start = exts_view(out@);
    let ghost c = strings_view(ctx@);
    let mut i: usize = 0;
    while i < items.len()
        invariant
            i <= items.len(),
            c == strings_view(ctx@),
            exts_view(out@) == start + items_docs(items@.take(i as int), base@, c, file@),
        decreases items.len() - i,
    {
        assert(items@.take(i + 1).drop_last() == items@.take(i as int));
        assert(items@.take(i + 1).last() == items@[i as int]);
        let ghost before = exts_view(out@);
        proof {
            assert(decreases_to!(items@ => items@[i as int]));
        }
        extract_item_docs(&items[i], base, ctx, file, out);
        i = i + 1;
    }
    assert(items@.take(items.len() as int) == items@);
}

/// Adds the documentation files of one item and of everything inside it.
#[verifier::spinoff_prover]
#[verifier::rlimit(40)]
fn extract_item_docs(
    item: &ModuleItem,
    base: &str,
    ctx: &Vec<String>,
    file: &str,
    out: &mut Vec<DocExtraction>,
)
    ensures
        exts_view(final(out)@) == exts_view(old(out)@) + item_docs(
            *item,
            base@,
            strings_view(ctx@),
            file@,
        ),
    decreases *item, 0nat,
{
    let ghost start = exts_view(out@);
    let ghost c = strings_view(ctx@);
    match item {
        ModuleItem::Function(s) | ModuleItem::TraitMethod(s) | ModuleItem::TypeAlias(s)
        | ModuleItem::Const(s) | ModuleItem::Static(s) => {
            push_doc_entry(&s.attrs, base, ctx, &s.name, file, s.line, out);
        },
        ModuleItem::ImplBlock(b) => {
            let mut inner = ctx.clone();
            let ghost mid = inner@;
            extend_impl_context(&mut inner, b, ctx);
            proof {
                assert(decreases_to!(*item => (*item)->ImplBlock_0));
                assert(decreases_to!(*b => b.body));
                assert(decreases_to!(b.body => b.body.items));
                assert(decreases_to!(b.body.items => b.body.items@));
            }
            push_items_docs(&b.body.items, base, &inner, file, out);
        },
        ModuleItem::Module(m) | ModuleItem::Trait(m) => {
            push_doc_entry(&m.attrs, base, ctx, &m.name, file, m.line, out);
            let inner = extend_context(ctx, &m.name);
            proof {
                if item is Module {
                    assert(decreases_to!(*item => (*item)->Module_0));
                } else {
                    assert(decreases_to!(*item => (*item)->Trait_0));
                }
                assert(decreases_to!(*m => m.body));
                assert(decreases_to!(m.body => m.body.items));
                assert(decreases_to!(m.body.items => m.body.items@));
            }
            push_items_docs(&m.body.items, base, &inner, file, out);
        },
        ModuleItem::Enum(e) => {
            push_doc_entry(&e.attrs, base, ctx, &e.name, file, e.line, out);
            match &e.variants {
                Some(vs) => {
                    let inner = extend_context(ctx, &e.name);
                    push_variant_docs(vs, base, &inner, file, out);
                },
                None => {},
            }
        },
        ModuleItem::Struct(s) => {
            push_doc_entry(&s.attrs, base, ctx, &s.name, file, s.line, out);
            match &s.body {
                StructBody::Named(Some(fs)) => {
                    let inner = extend_context(ctx, &s.name);
                    push_field_docs(fs, base, &inner, file, out);
                },
                _ => {},
            }
        },
        ModuleItem::Other(_) => {},
    }
    assert(exts_view(out@) == start + item_docs(*item, base@, c, file@));
}

/// Appends the context an impl block adds.
pub(crate) fn extend_impl_context(inner: &mut Vec<String>, b: &ImplBlock, ctx: &Vec<String>)
    requires
        old(inner)@ == ctx@,
    ensures
        strings_view(final(inner)@) == strings_view(ctx@) + impl_context(*b),
{
    let target = ident_or_unknown_exec(&b.target_ident);
    let ghost before = inner@;
    if b.has_for {
        let for_type = ident_or_unknown_exec(&b.for_ident);
        inner.push(for_type);
        inner.push(target);
        assert(strings_view(inner@) == strings_view(before) + seq![
            ident_or_unknown(b.for_ident),
            ident_or_unknown(b.target_ident),
        ]);
    } else {
        inner.push(target);
        assert(strings_view(inner@) == strings_view(before) + seq![
            ident_or_unknown(b.target_ident),
        ]);
    }
}

fn ident_or_unknown_exec(o: &Option<String>) -> (r: String)
    ensures
        r@ == ident_or_unknown(*o),
{
    match o {
        Some(s) => s.clone(),
        None => string_of(&chars_of("Unknown")),
    }
}

/// The name the module documentation of a file is stored under: its file
/// stem (`lib` for `lib.rs`), or `module` when the path has none.
pub uninterp spec fn file_stem(path: Seq<char>) -> Option<Seq<char>>;

/// `Path::file_stem` on the path text, converted back to text: the final
/// component without its extension, when there is one and it is UTF-8. The
/// result is named, not described.
#[verifier::external_body]
fn path_file_stem(path: &str) -> (r: Option<String>)
    ensures
        opt_view(r) == file_stem(path@),
{
    match std::path::Path::new(path).file_stem() {
        Some(stem) => match stem.to_str() {
            Some(s) => Some(s.to_string()),
            None => None,
        },
        None => None,
    }
}

/// The markdown path of a file's module documentation.
pub open spec fn module_doc_path(path: Seq<char>, mod_path: Seq<char>, base: Seq<char>) -> Seq<
    char,
> {
    let name = if mod_path.len() == 0 {
        match file_stem(path) {
            Some(s) => s,
            None => "module"@,
        }
    } else {
        mod_path
    };
    base + seq!['/'] + name + ".md"@
}

/// The context the items of a file start in: its module path, if any.
pub open spec fn file_context(mod_path: Seq<char>) -> Seq<Seq<char>> {
    if mod_path.len() == 0 {
        Seq::empty()
    } else {
        seq![mod_path]
    }
}

/// The markdown path of a file's module documentation.
pub fn module_doc_path_of(parsed: &ParsedFile, docs_root: &str) -> (r: String)
    ensures
        r@ == module_doc_path(parsed.path@, parsed.mod_path@, docs_root@),
{
    let mp = chars_of(parsed.mod_path.as_str());
    let name = if mp.len() == 0 {
        match path_file_stem(parsed.path.as_str()) {
            Some(s) => s,
            None => string_of(&chars_of("module")),
        }
    } else {
        parsed.mod_path.clone()
    };
    let mut v = chars_of(docs_root);
    v.push('/');
    append_chars(&mut v, &chars_of(name.as_str()));
    append_chars(&mut v, &chars_of(".md"));
    string_of(&v)
}

/// The context the items of a file start in.
pub(crate) fn file_context_of(parsed: &ParsedFile) -> (r: Vec<String>)
    ensures
        strings_view(r@) == file_context(parsed.mod_path@),
{
    let mut r: Vec<String> = Vec::new();
    let mp = chars_of(parsed.mod_path.as_str());
    if mp.len() != 0 {
        r.push(parsed.mod_path.clone());
        assert(strings_view(r@) == seq![parsed.mod_path@]);
    } else {
        assert(strings_view(r@) =~= Seq::<Seq<char>>::empty());
    }
    r
}

/// The documentation files of a parsed file: its module documentation
/// first, then those of its items in source order.
pub open spec fn all_docs(parsed: ParsedFile, base: Seq<char>) -> Seq<
    (Seq<char>, Seq<char>, Seq<char>),
> {
    let module_doc = match doc_content(
        inner_attrs_view(parsed.content.inner_attrs),
        inner_opener(),
    ) {
        Some(c) => seq![
            (
                module_doc_path(parsed.path@, parsed.mod_path@, base),
                with_final_newline(c),
                parsed.path@ + ":1"@,
            ),
        ],
        None => Seq::empty(),
    };
    module_doc + items_docs(
        parsed.content.items@,
        base,
        file_context(parsed.mod_path@),
        parsed.path@,
    )
}

/// Extracts all documentation from a parsed file, one `DocExtraction` per
/// documented item: the module documentation (at the file's stem or module
/// path), then items, fields and variants at `docs_root/context/name.md`.
pub fn extract_all_docs(parsed: &ParsedFile, docs_root: &str) -> (r: Vec<DocExtraction>)
    ensures
        exts_view(r@) == all_docs(*parsed, docs_root@),
{
    let mut out: Vec<DocExtraction> = Vec::new();
    if let Some(inner_doc) = extract_inner_doc_content(&parsed.content.inner_attrs) {
        let path = module_doc_path_of(parsed, docs_root);
        let mut loc = chars_of(parsed.path.as_str());
        append_chars(&mut loc, &chars_of(":1"));
        push_extraction(&mut out, DocExtraction::new(path, inner_doc, string_of(&loc)));
    }
    let ghost first = exts_view(out@);
    let ctx = file_context_of(parsed);
    push_items_docs(&parsed.content.items, docs_root, &ctx, parsed.path.as_str(), &mut out);
    out
}

/// Every entry's markdown path starts with `pre`.
pub open spec fn paths_under(s: Seq<(Seq<char>, Seq<char>, Seq<char>)>, pre: Seq<char>) -> bool {
    forall|k: int| 0 <= k < s.len() ==> crate::text::has_prefix(#[trigger] s[k].0, pre)
}

proof fn lemma_under_concat(
    a: Seq<(Seq<char>, Seq<char>, Seq<char>)>,
    b: Seq<(Seq<char>, Seq<char>, Seq<char>)>,
    pre: Seq<char>,
)
    requires
        paths_under(a, pre),
        paths_under(b, pre),
    ensures
        paths_under(a + b, pre),
{
    assert forall|k: int| 0 <= k < (a + b).len() implies crate::text::has_prefix(
        #[trigger] (a + b)[k].0,
        pre,
    ) by {
        if k < a.len() {
            assert((a + b)[k] == a[k]);
        } else {
            assert((a + b)[k] == b[k - a.len()]);
        }
    }
}

/// A path joined from at least three parts starts with the first two.
proof fn lemma_join_prefix(ls: Seq<Seq<char>>, sep: Seq<char>)
    requires
        ls.len() >= 3,
    ensures
        crate::text::has_prefix(join(ls, sep), ls[0] + sep + ls[1] + sep),
    decreases ls.len(),
{
    if ls.len() == 3 {
        let two = ls.drop_last();
        assert(two.drop_last().len() == 1);
        assert(join(two.drop_last(), sep) == two.drop_last()[0]);
        assert(join(two, sep) == ls[0] + sep + ls[1]);
        let p = ls[0] + sep + ls[1] + sep;
        assert(join(ls, sep) == p + ls[2]);
        assert((p + ls[2]).take(p.len() as int) =~= p);
    } else {
        lemma_join_prefix(ls.drop_last(), sep);
        assert(ls.drop_last()[0] == ls[0] && ls.drop_last()[1] == ls[1]);
        crate::text::lemma_prefix_extend(
            join(ls.drop_last(), sep),
            ls[0] + sep + ls[1] + sep,
            sep + ls.last(),
        );
        assert(join(ls, sep) == join(ls.drop_last(), sep) + (sep + ls.last()));
    }
}

/// The path of an item under a non-empty context lies under the context's
/// first part.
proof fn lemma_doc_path_under(base: Seq<char>, ctx: Seq<Seq<char>>, name: Seq<char>)
    requires
        ctx.len() >= 1,
    ensures
        crate::text::has_prefix(doc_path(base, ctx, name), base + seq!['/'] + ctx[0] + seq!['/']),
{
    let ls = seq![base] + ctx + seq![name + ".md"@];
    assert(ls[0] == base && ls[1] == ctx[0]);
    lemma_join_prefix(ls, seq!['/']);
}

proof fn lemma_entry_under(
    attrs: Option<Vec<Attribute>>,
    base: Seq<char>,
    ctx: Seq<Seq<char>>,
    name: Seq<char>,
    file: Seq<char>,
    line: nat,
)
    requires
        ctx.len() >= 1,
    ensures
        paths_under(doc_entry(attrs, base, ctx, name, file, line), base + seq!['/'] + ctx[0] + seq!['/']),
{
    lemma_doc_path_under(base, ctx, name);
}

proof fn lemma_fields_under(fields: Seq<Field>, base: Seq<char>, ctx: Seq<Seq<char>>, file: Seq<char>)
    requires
        ctx.len() >= 1,
    ensures
        paths_under(fields_docs(fields, base, ctx, file), base + seq!['/'] + ctx[0] + seq!['/']),
    decreases fields.len(),
{
    let pre = base + seq!['/'] + ctx[0] + seq!['/'];
    if fields.len() > 0 {
        let f = fields.last();
        lemma_fields_under(fields.drop_last(), base, ctx, file);
        lemma_entry_under(f.attrs, base, ctx, f.name@, file, f.line as nat);
        lemma_under_concat(
            fields_docs(fields.drop_last(), base, ctx, file),
            doc_entry(f.attrs, base, ctx, f.name@, file, f.line as nat),
            pre,
        );
    }
}

proof fn lemma_opt_fields_under(
    fields: Option<Vec<Field>>,
    base: Seq<char>,
    ctx: Seq<Seq<char>>,
    file: Seq<char>,
)
    requires
        ctx.len() >= 1,
    ensures
        paths_under(opt_fields_docs(fields, base, ctx, file), base + seq!['/'] + ctx[0] + seq!['/']),
{
    if let Some(f) = fields {
        lemma_fields_under(f@, base, ctx, file);
    }
}

proof fn lemma_variants_under(vs: Seq<Variant>, base: Seq<char>, ctx: Seq<Seq<char>>, file: Seq<char>)
    requires
        ctx.len() >= 1,
    ensures
        paths_under(variants_docs(vs, base, ctx, file), base + seq!['/'] + ctx[0] + seq!['/']),
    decreases vs.len(),
{
    let pre = base + seq!['/'] + ctx[0] + seq!['/'];
    if vs.len() > 0 {
        let v = vs.last();
        lemma_variants_under(vs.drop_last(), base, ctx, file);
        lemma_entry_under(v.attrs, base, ctx, v.name@, file, v.line as nat);
        assert(ctx.push(v.name@)[0] == ctx[0]);
        let fd = match v.data {
            Some(VariantData::Struct(fs)) => {
                lemma_opt_fields_under(fs, base, ctx.push(v.name@), file);
                opt_fields_docs(fs, base, ctx.push(v.name@), file)
            },
            _ => Seq::empty(),
        };
        let e = doc_entry(v.attrs, base, ctx, v.name@, file, v.line as nat);
        lemma_under_concat(e, fd, pre);
        assert(variant_docs(v, base, ctx, file) == e + fd);
        lemma_under_concat(variants_docs(vs.drop_last(), base, ctx, file), e + fd, pre);
    }
}

proof fn lemma_item_under(item: ModuleItem, base: Seq<char>, ctx: Seq<Seq<char>>, file: Seq<char>)
    requires
        ctx.len() >= 1,
    ensures
        paths_under(item_docs(item, base, ctx, file), base + seq!['/'] + ctx[0] + seq!['/']),
    decreases item, 0nat,
{
    let pre = base + seq!['/'] + ctx[0] + seq!['/'];
    match item {
        ModuleItem::Function(s) => lemma_entry_under(s.attrs, base, ctx, s.name@, file, s.line as nat),
        ModuleItem::TraitMethod(s) => lemma_entry_under(s.attrs, base, ctx, s.name@, file, s.line as nat),
        ModuleItem::TypeAlias(s) => lemma_entry_under(s.attrs, base, ctx, s.name@, file, s.line as nat),
        ModuleItem::Const(s) => lemma_entry_under(s.attrs, base, ctx, s.name@, file, s.line as nat),
        ModuleItem::Static(s) => lemma_entry_under(s.attrs, base, ctx, s.name@, file, s.line as nat),
        ModuleItem::ImplBlock(b) => {
            assert(decreases_to!(item => b));
            assert(decreases_to!(b => b.body));
            assert(decreases_to!(b.body => b.body.items));
            assert(decreases_to!(b.body.items => b.body.items@));
            assert((ctx + impl_context(b))[0] == ctx[0]);
            lemma_items_under(b.body.items@, base, ctx + impl_context(b), file);
        },
        ModuleItem::Module(m) => {
            assert(decreases_to!(item => m));
            assert(decreases_to!(m => m.body));
            assert(decreases_to!(m.body => m.body.items));
            assert(decreases_to!(m.body.items => m.body.items@));
            assert(ctx.push(m.name@)[0] == ctx[0]);
            lemma_entry_under(m.attrs, base, ctx, m.name@, file, m.line as nat);
            lemma_items_under(m.body.items@, base, ctx.push(m.name@), file);
            lemma_under_concat(
                doc_entry(m.attrs, base, ctx, m.name@, file, m.line as nat),
                items_docs(m.body.items@, base, ctx.push(m.name@), file),
                pre,
            );
        },
        ModuleItem::Trait(m) => {
            assert(decreases_to!(item => m));
            assert(decreases_to!(m => m.body));
            assert(decreases_to!(m.body => m.body.items));
            assert(decreases_to!(m.body.items => m.body.items@));
            assert(ctx.push(m.name@)[0] == ctx[0]);
            lemma_entry_under(m.attrs, base, ctx, m.name@, file, m.line as nat);
            lemma_items_under(m.body.items@, base, ctx.push(m.name@), file);
            lemma_under_concat(
                doc_entry(m.attrs, base, ctx, m.name@, file, m.line as nat),
                items_docs(m.body.items@, base, ctx.push(m.name@), file),
                pre,
            );
        },
        ModuleItem::Enum(e) => {
            lemma_entry_under(e.attrs, base, ctx, e.name@, file, e.line as nat);
            assert(ctx.push(e.name@)[0] == ctx[0]);
            let vd = match e.variants {
                Some(vs) => {
                    lemma_variants_under(vs@, base, ctx.push(e.name@), file);
                    variants_docs(vs@, base, ctx.push(e.name@), file)
                },
                None => Seq::empty(),
            };
            lemma_under_concat(doc_entry(e.attrs, base, ctx, e.name@, file, e.line as nat), vd, pre);
        },
        ModuleItem::Struct(s) => {
            lemma_entry_under(s.attrs, base, ctx, s.name@, file, s.line as nat);
            assert(ctx.push(s.name@)[0] == ctx[0]);
            let fd = match s.body {
                StructBody::Named(fs) => {
                    lemma_opt_fields_under(fs, base, ctx.push(s.name@), file);
                    opt_fields_docs(fs, base, ctx.push(s.name@), file)
                },
                _ => Seq::empty(),
            };
            lemma_under_concat(doc_entry(s.attrs, base, ctx, s.name@, file, s.line as nat), fd, pre);
        },
        ModuleItem::Other(_) => {},
    }
}

proof fn lemma_items_under(items: Seq<ModuleItem>, base: Seq<char>, ctx: Seq<Seq<char>>, file: Seq<char>)
    requires
        ctx.len() >= 1,
    ensures
        paths_under(items_docs(items, base, ctx, file), base + seq!['/'] + ctx[0] + seq!['/']),
    decreases items, 1nat,
{
    if items.len() > 0 {
        assert(decreases_to!(items => items.drop_last()));
        assert(decreases_to!(items => items.last()));
        lemma_items_under(items.drop_last(), base, ctx, file);
        lemma_item_under(items.last(), base, ctx, file);
        lemma_under_concat(
            items_docs(items.drop_last(), base, ctx, file),
            item_docs(items.last(), base, ctx, file),
            base + seq!['/'] + ctx[0] + seq!['/'],
        );
    }
}

/// The documentation of a file with a module path lies under that path:
/// every extracted file but the module's own is at
/// `base/<module path>/...`, so items of different modules never collide.
pub proof fn lemma_docs_under_module_path(parsed: ParsedFile, base: Seq<char>)
    requires
        parsed.mod_path@.len() > 0,
    ensures
        forall|k: int|
            0 <= k < all_docs(parsed, base).len() ==> #[trigger] all_docs(parsed, base)[k].0
                == module_doc_path(parsed.path@, parsed.mod_path@, base) || crate::text::has_prefix(
                all_docs(parsed, base)[k].0,
                base + seq!['/'] + parsed.mod_path@ + seq!['/'],
            ),
{
    let ctx = file_context(parsed.mod_path@);
    let items = parsed.content.items@;
    let pre = base + seq!['/'] + parsed.mod_path@ + seq!['/'];
    if ctx.len() >= 1 {
        lemma_items_under(items, base, ctx, parsed.path@);
    }
    let d = all_docs(parsed, base);
    let md = d.len() - items_docs(items, base, ctx, parsed.path@).len();
    assert forall|k: int| 0 <= k < d.len() implies #[trigger] d[k].0 == module_doc_path(
        parsed.path@,
        parsed.mod_path@,
        base,
    ) || crate::text::has_prefix(d[k].0, pre) by {
        if k >= md {
            assert(d[k] == items_docs(items, base, ctx, parsed.path@)[k - md]);
            assert(ctx.len() >= 1 && ctx[0] == parsed.mod_path@);
        }
    }
}

} // verus!
