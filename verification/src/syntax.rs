//! The shape of a parsed Rust source file as the migration reads it: items
//! with their attributes, names and nested items, and every other part held
//! as its printed tokens.
use vstd::prelude::*;

use crate::extract::{attrs_view, inner_attrs_view, Attribute, InnerAttribute};
use crate::text::{append_chars, chars_of};

verus! {

/// A named field of a struct or of a struct-like enum variant.
#[derive(Debug)]
pub struct Field {
    pub attrs: Option<Vec<Attribute>>,
    /// The visibility tokens (`pub`, `pub(crate)`, or nothing).
    pub visibility: String,
    pub name: String,
    /// The tokens of the field's type.
    pub field_type: String,
    /// The line the field's name stands on.
    pub line: usize,
}

/// What follows an enum variant's name.
#[derive(Debug)]
pub enum VariantData {
    /// `{ ... }`: named fields; `None` for empty braces.
    Struct(Option<Vec<Field>>),
    /// Anything else (a tuple of types, `= discriminant`), as tokens.
    Other(String),
}

/// A variant of an enum.
#[derive(Debug)]
pub struct Variant {
    pub attrs: Option<Vec<Attribute>>,
    pub name: String,
    pub data: Option<VariantData>,
    pub line: usize,
}

/// The body of a struct.
#[derive(Debug)]
pub enum StructBody {
    /// `{ ... }`: named fields; `None` for empty braces.
    Named(Option<Vec<Field>>),
    /// `( ... );`, as tokens.
    Tuple(String),
    /// `;`
    Unit,
}

/// A function, trait method, type alias, const or static: attributes, the
/// tokens before the name, the name, and the tokens after it.
#[derive(Debug)]
pub struct Signature {
    pub attrs: Option<Vec<Attribute>>,
    /// Visibility and keywords before the name (`pub const fn`, `static mut`).
    pub head: String,
    pub name: String,
    /// Everything after the name (generics, parameters, body, type, value).
    pub tail: String,
    pub line: usize,
}

/// A struct definition.
#[derive(Debug)]
pub struct StructDef {
    pub attrs: Option<Vec<Attribute>>,
    /// `pub struct` and the like.
    pub head: String,
    pub name: String,
    /// Generics and where clause, as tokens.
    pub generics: String,
    pub body: StructBody,
    pub line: usize,
}

/// An enum definition.
#[derive(Debug)]
pub struct EnumDef {
    pub attrs: Option<Vec<Attribute>>,
    pub head: String,
    pub name: String,
    pub generics: String,
    /// The variants; `None` for empty braces.
    pub variants: Option<Vec<Variant>>,
    pub line: usize,
}

/// A module or trait with a braced body of items.
#[derive(Debug)]
pub struct Scope {
    pub attrs: Option<Vec<Attribute>>,
    /// `pub mod`, `pub unsafe trait` and the like.
    pub head: String,
    pub name: String,
    /// Generics, supertrait bounds and where clause, as tokens.
    pub generics: String,
    pub body: ModuleContent,
    pub line: usize,
}

/// An impl block.
#[derive(Debug)]
pub struct ImplBlock {
    pub attrs: Option<Vec<Attribute>>,
    /// The tokens from `impl` up to the opening brace.
    pub head: String,
    /// The first token of the type after `impl`, when it is an identifier
    /// (the implemented trait's name in `impl Trait for Type`).
    pub target_ident: Option<String>,
    /// Whether the block is `impl Trait for Type`.
    pub has_for: bool,
    /// The first token after `for`, when it is an identifier.
    pub for_ident: Option<String>,
    pub body: ModuleContent,
}

/// An item of a module, trait or impl body.
#[derive(Debug)]
pub enum ModuleItem {
    Function(Signature),
    TraitMethod(Signature),
    Struct(StructDef),
    Enum(EnumDef),
    Module(Scope),
    Trait(Scope),
    ImplBlock(ImplBlock),
    TypeAlias(Signature),
    Const(Signature),
    Static(Signature),
    /// Any other item (a `use`, a macro call, ...), as tokens.
    Other(String),
}

/// The contents of a file or of a braced body: inner attributes, then items.
#[derive(Debug)]
pub struct ModuleContent {
    pub inner_attrs: Option<Vec<InnerAttribute>>,
    pub items: Vec<ModuleItem>,
}

/// A token's text followed by the space that separates it from the next.
pub open spec fn tok(p: Seq<char>) -> Seq<char> {
    p + seq![' ']
}

/// Printed tokens, each followed by a space.
pub open spec fn toks(ts: Seq<Seq<char>>) -> Seq<char>
    decreases ts.len(),
{
    if ts.len() == 0 {
        Seq::empty()
    } else {
        toks(ts.drop_last()) + tok(ts.last())
    }
}

pub open spec fn opt_toks(ts: Option<Seq<Seq<char>>>) -> Seq<char> {
    match ts {
        Some(t) => toks(t),
        None => Seq::empty(),
    }
}

/// The tokens of a named field.
pub open spec fn field_tokens(f: Field) -> Seq<char> {
    opt_toks(attrs_view(f.attrs)) + tok(f.visibility@) + tok(f.name@) + ": "@ + tok(
        f.field_type@,
    )
}

/// Comma-separated fields.
pub open spec fn fields_tokens(fs: Seq<Field>) -> Seq<char>
    decreases fs.len(),
{
    if fs.len() == 0 {
        Seq::empty()
    } else {
        fields_tokens(fs.drop_last()) + (if fs.len() > 1 {
            ", "@
        } else {
            Seq::empty()
        }) + field_tokens(fs.last())
    }
}

/// A braced list of fields (`{ }` when there are none).
pub open spec fn braced_fields(fs: Option<Vec<Field>>) -> Seq<char> {
    match fs {
        Some(f) => "{ "@ + fields_tokens(f@) + "} "@,
        None => "{ } "@,
    }
}

/// The tokens of what follows a variant's name.
pub open spec fn data_tokens(d: Option<VariantData>) -> Seq<char> {
    match d {
        Some(VariantData::Struct(fs)) => braced_fields(fs),
        Some(VariantData::Other(t)) => tok(t@),
        None => Seq::empty(),
    }
}

pub open spec fn variant_tokens(v: Variant) -> Seq<char> {
    opt_toks(attrs_view(v.attrs)) + tok(v.name@) + data_tokens(v.data)
}

pub open spec fn variants_tokens(vs: Seq<Variant>) -> Seq<char>
    decreases vs.len(),
{
    if vs.len() == 0 {
        Seq::empty()
    } else {
        variants_tokens(vs.drop_last()) + (if vs.len() > 1 {
            ", "@
        } else {
            Seq::empty()
        }) + variant_tokens(vs.last())
    }
}

pub open spec fn braced_variants(vs: Option<Vec<Variant>>) -> Seq<char> {
    match vs {
        Some(v) => "{ "@ + variants_tokens(v@) + "} "@,
        None => "{ } "@,
    }
}

pub open spec fn body_tokens(b: StructBody) -> Seq<char> {
    match b {
        StructBody::Named(fs) => braced_fields(fs),
        StructBody::Tuple(t) => tok(t@),
        StructBody::Unit => "; "@,
    }
}

pub open spec fn sig_tokens(s: Signature) -> Seq<char> {
    opt_toks(attrs_view(s.attrs)) + tok(s.head@) + tok(s.name@) + tok(s.tail@)
}

/// The tokens of an item, as it was parsed.
pub open spec fn item_tokens(item: ModuleItem) -> Seq<char>
    decreases item,
{
    match item {
        ModuleItem::Function(s) => sig_tokens(s),
        ModuleItem::TraitMethod(s) => sig_tokens(s),
        ModuleItem::TypeAlias(s) => sig_tokens(s),
        ModuleItem::Const(s) => sig_tokens(s),
        ModuleItem::Static(s) => sig_tokens(s),
        ModuleItem::Struct(s) => opt_toks(attrs_view(s.attrs)) + tok(s.head@) + tok(s.name@) + tok(
            s.generics@,
        ) + body_tokens(s.body),
        ModuleItem::Enum(e) => opt_toks(attrs_view(e.attrs)) + tok(e.head@) + tok(e.name@) + tok(
            e.generics@,
        ) + braced_variants(e.variants),
        ModuleItem::Module(m) => opt_toks(attrs_view(m.attrs)) + tok(m.head@) + tok(m.name@) + tok(
            m.generics@,
        ) + "{ "@ + opt_toks(inner_attrs_view(m.body.inner_attrs)) + items_tokens(
            m.body.items@,
        ) + "} "@,
        ModuleItem::Trait(m) => opt_toks(attrs_view(m.attrs)) + tok(m.head@) + tok(m.name@) + tok(
            m.generics@,
        ) + "{ "@ + opt_toks(inner_attrs_view(m.body.inner_attrs)) + items_tokens(
            m.body.items@,
        ) + "} "@,
        ModuleItem::ImplBlock(b) => opt_toks(attrs_view(b.attrs)) + tok(b.head@) + "{ "@
            + opt_toks(inner_attrs_view(b.body.inner_attrs)) + items_tokens(b.body.items@)
            + "} "@,
        ModuleItem::Other(t) => tok(t@),
    }
}

pub open spec fn items_tokens(items: Seq<ModuleItem>) -> Seq<char>
    decreases items,
{
    if items.len() == 0 {
        Seq::empty()
    } else {
        items_tokens(items.drop_last()) + item_tokens(items.last())
    }
}

/// The tokens of a body or file: inner attributes, then items.
pub open spec fn content_tokens(c: ModuleContent) -> Seq<char> {
    opt_toks(inner_attrs_view(c.inner_attrs)) + items_tokens(c.items@)
}

/// Appends a token and a space.
pub fn push_tok(out: &mut Vec<char>, t: &String)
    ensures
        final(out)@ == old(out)@ + tok(t@),
{
    append_chars(out, &chars_of(t.as_str()));
    out.push(' ');
}

/// Appends literal text.
pub fn push_text(out: &mut Vec<char>, t: &str)
    ensures
        final(out)@ == old(out)@ + t@,
{
    append_chars(out, &chars_of(t));
}

/// Appends the tokens of an attribute list.
pub fn push_attrs(out: &mut Vec<char>, attrs: &Option<Vec<Attribute>>)
    ensures
        final(out)@ == old(out)@ + opt_toks(attrs_view(*attrs)),
{
    if let Some(list) = attrs {
        let ghost a = list@.map_values(|x: Attribute| x.tokens@);
        let ghost start = out@;
        let mut i: usize = 0;
        while i < list.len()
            invariant
                i <= list.len(),
                a == list@.map_values(|x: Attribute| x.tokens@),
                a.len() == list.len(),
                out@ == start + toks(a.take(i as int)),
            decreases list.len() - i,
        {
            assert(a.take(i + 1).drop_last() == a.take(i as int));
            assert(a.take(i + 1).last() == list@[i as int].tokens@);
            push_tok(out, &list[i].tokens);
            i = i + 1;
        }
        assert(a.take(list.len() as int) == a);
    } else {
        assert(out@ + Seq::<char>::empty() == out@);
    }
}

/// Appends the tokens of an inner attribute list.
pub fn push_inner_attrs(out: &mut Vec<char>, attrs: &Option<Vec<InnerAttribute>>)
    ensures
        final(out)@ == old(out)@ + opt_toks(inner_attrs_view(*attrs)),
{
    if let Some(list) = attrs {
        let ghost a = list@.map_values(|x: InnerAttribute| x.tokens@);
        let ghost start = out@;
        let mut i: usize = 0;
        while i < list.len()
            invariant
                i <= list.len(),
                a == list@.map_values(|x: InnerAttribute| x.tokens@),
                a.len() == list.len(),
                out@ == start + toks(a.take(i as int)),
            decreases list.len() - i,
        {
            assert(a.take(i + 1).drop_last() == a.take(i as int));
            assert(a.take(i + 1).last() == list@[i as int].tokens@);
            push_tok(out, &list[i].tokens);
            i = i + 1;
        }
        assert(a.take(list.len() as int) == a);
    } else {
        assert(out@ + Seq::<char>::empty() == out@);
    }
}

fn push_field(out: &mut Vec<char>, f: &Field)
    ensures
        final(out)@ == old(out)@ + field_tokens(*f),
{
    push_attrs(out, &f.attrs);
    push_tok(out, &f.visibility);
    push_tok(out, &f.name);
    push_text(out, ": ");
    push_tok(out, &f.field_type);
}

fn push_fields(out: &mut Vec<char>, fs: &Vec<Field>)
    ensures
        final(out)@ == old(out)@ + fields_tokens(fs@),
{
    let ghost start = out@;
    let mut i: usize = 0;
    while i < fs.len()
        invariant
            i <= fs.len(),
            out@ == start + fields_tokens(fs@.take(i as int)),
        decreases fs.len() - i,
    {
        assert(fs@.take(i + 1).drop_last() == fs@.take(i as int));
        assert(fs@.take(i + 1).last() == fs@[i as int]);
        if i > 0 {
            push_text(out, ", ");
        }
        push_field(out, &fs[i]);
        i = i + 1;
    }
    assert(fs@.take(fs.len() as int) == fs@);
}

fn push_braced_fields(out: &mut Vec<char>, fs: &Option<Vec<Field>>)
    ensures
        final(out)@ == old(out)@ + braced_fields(*fs),
{
    match fs {
        Some(f) => {
            push_text(out, "{ ");
            push_fields(out, f);
            push_text(out, "} ");
        },
        None => push_text(out, "{ } "),
    }
}

fn push_variant(out: &mut Vec<char>, v: &Variant)
    ensures
        final(out)@ == old(out)@ + variant_tokens(*v),
{
    push_attrs(out, &v.attrs);
    push_tok(out, &v.name);
    match &v.data {
        Some(VariantData::Struct(fs)) => push_braced_fields(out, fs),
        Some(VariantData::Other(t)) => push_tok(out, t),
        None => {},
    }
}

fn push_braced_variants(out: &mut Vec<char>, vs: &Option<Vec<Variant>>)
    ensures
        final(out)@ == old(out)@ + braced_variants(*vs),
{
    match vs {
        Some(v) => {
            push_text(out, "{ ");
            let ghost start = out@;
            let mut i: usize = 0;
            while i < v.len()
                invariant
                    i <= v.len(),
                    out@ == start + variants_tokens(v@.take(i as int)),
                decreases v.len() - i,
            {
                assert(v@.take(i + 1).drop_last() == v@.take(i as int));
                assert(v@.take(i + 1).last() == v@[i as int]);
                if i > 0 {
                    push_text(out, ", ");
                }
                push_variant(out, &v[i]);
                i = i + 1;
            }
            assert(v@.take(v.len() as int) == v@);
            push_text(out, "} ");
        },
        None => push_text(out, "{ } "),
    }
}

fn push_sig(out: &mut Vec<char>, s: &Signature)
    ensures
        final(out)@ == old(out)@ + sig_tokens(*s),
{
    push_attrs(out, &s.attrs);
    push_tok(out, &s.head);
    push_tok(out, &s.name);
    push_tok(out, &s.tail);
}

/// Appends the tokens of the items of a body.
pub fn push_items(out: &mut Vec<char>, items: &Vec<ModuleItem>)
    ensures
        final(out)@ == old(out)@ + items_tokens(items@),
    decreases items@, 1nat,
{
    let ghost start = out@;
    let mut i: usize = 0;
    while i < items.len()
        invariant
            i <= items.len(),
            out@ == start + items_tokens(items@.take(i as int)),
        decreases items.len() - i,
    {
        assert(items@.take(i + 1).drop_last() == items@.take(i as int));
        assert(items@.take(i + 1).last() == items@[i as int]);
        proof {
            assert(decreases_to!(items@ => items@[i as int]));
        }
        push_item(out, &items[i]);
        i = i + 1;
    }
    assert(items@.take(items.len() as int) == items@);
}

/// Appends the tokens of an item, as it was parsed.
#[verifier::spinoff_prover]
#[verifier::rlimit(40)]
pub fn push_item(out: &mut Vec<char>, item: &ModuleItem)
    ensures
        final(out)@ == old(out)@ + item_tokens(*item),
    decreases *item, 0nat,
{
    let ghost start = out@;
    match item {
        ModuleItem::Function(s) | ModuleItem::TraitMethod(s) | ModuleItem::TypeAlias(s)
        | ModuleItem::Const(s) | ModuleItem::Static(s) => push_sig(out, s),
        ModuleItem::Struct(s) => {
            push_attrs(out, &s.attrs);
            push_tok(out, &s.head);
            push_tok(out, &s.name);
            push_tok(out, &s.generics);
            match &s.body {
                StructBody::Named(fs) => push_braced_fields(out, fs),
                StructBody::Tuple(t) => push_tok(out, t),
                StructBody::Unit => push_text(out, "; "),
            }
        },
        ModuleItem::Enum(e) => {
            push_attrs(out, &e.attrs);
            push_tok(out, &e.head);
            push_tok(out, &e.name);
            push_tok(out, &e.generics);
            push_braced_variants(out, &e.variants);
        },
        ModuleItem::Module(m) | ModuleItem::Trait(m) => {
            push_attrs(out, &m.attrs);
            push_tok(out, &m.head);
            push_tok(out, &m.name);
            push_tok(out, &m.generics);
            push_text(out, "{ ");
            push_inner_attrs(out, &m.body.inner_attrs);
            proof {
                if item is Module {
                    assert(decreases_to!(*item => (*item)->Module_0));
                } else {
                    assert(decreases_to!(*item => (*item)->Trait_0));
                }
                assert(decreases_to!(*m => m.body));
                assert(decreases_to!(m.body => m.body.items));
                assert(decreases_to!(m.body.items => m.body.items@));
            }
            push_items(out, &m.body.items);
            push_text(out, "} ");
        },
        ModuleItem::ImplBlock(b) => {
            push_attrs(out, &b.attrs);
            push_tok(out, &b.head);
            push_text(out, "{ ");
            push_inner_attrs(out, &b.body.inner_attrs);
            proof {
                assert(decreases_to!(*item => (*item)->ImplBlock_0));
                assert(decreases_to!(*b => b.body));
                assert(decreases_to!(b.body => b.body.items));
                assert(decreases_to!(b.body.items => b.body.items@));
            }
            push_items(out, &b.body.items);
            push_text(out, "} ");
        },
        ModuleItem::Other(t) => push_tok(out, t),
    }
    assert(out@ == start + item_tokens(*item));
}

/// The tokens of a body or file, as it was parsed.
pub fn print_content(c: &ModuleContent) -> (r: Vec<char>)
    ensures
        r@ == content_tokens(*c),
{
    let mut out: Vec<char> = Vec::new();
    push_inner_attrs(&mut out, &c.inner_attrs);
    push_items(&mut out, &c.items);
    out
}

/// The text of a string literal token holding the given text, as
/// proc-macro2 prints it (quoted, with its escapes).
pub uninterp spec fn string_literal_token(s: Seq<char>) -> Seq<char>;

/// A character that a string literal token holds as it is: printable ASCII
/// other than `"` and `\`.
pub open spec fn literal_plain_char(c: char) -> bool {
    0x20 <= (c as u32) <= 0x7E && c != '"' && c != '\\'
}

/// `proc_macro2::Literal::string` followed by `to_string`: the token text of
/// a string literal for the given text. The text is named; it depends on
/// its argument alone. Of it is stated only what the escaping
/// (`escape_utf8`, through `char::escape_debug`) plainly shows: a text of
/// printable ASCII without `"` or `\` is printed as it is, between quotes.
#[verifier::external_body]
pub(crate) fn literal_token(s: &str) -> (r: String)
    ensures
        r@ == string_literal_token(s@),
        (forall|i: int| 0 <= i < s@.len() ==> literal_plain_char(#[trigger] s@[i])) ==> r@ == seq![
            '"',
        ] + s@ + seq!['"'],
{
    proc_macro2::Literal::string(s).to_string()
}

} // verus!
