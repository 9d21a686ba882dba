//! Removing documentation attributes from parsed items, keeping every other
//! attribute and token.
use vstd::prelude::*;

use crate::extract::{
    attrs_view, inner_attrs_view, is_doc_bracket, is_inner_doc_attr, is_outer_doc_attr, Attribute,
    InnerAttribute,
};
use crate::syntax::{
    braced_fields, braced_variants, field_tokens, fields_tokens, item_tokens, items_tokens,
    opt_toks, variant_tokens, variants_tokens, push_inner_attrs, push_text, push_tok, tok, toks, EnumDef, Field, ModuleContent, ModuleItem,
    Signature, StructBody, StructDef, Variant, VariantData,
};

verus! {

/// The attributes that are not documentation (`doc` or `cfg_attr`).
pub open spec fn non_doc(a: Seq<Seq<char>>) -> Seq<Seq<char>>
    decreases a.len(),
{
    if a.len() == 0 {
        Seq::empty()
    } else if is_doc_bracket(a.last()) {
        non_doc(a.drop_last())
    } else {
        non_doc(a.drop_last()).push(a.last())
    }
}

pub open spec fn opt_non_doc(a: Option<Seq<Seq<char>>>) -> Seq<Seq<char>> {
    match a {
        Some(x) => non_doc(x),
        None => Seq::empty(),
    }
}

pub open spec fn strip_field_tokens(f: Field) -> Seq<char> {
    toks(opt_non_doc(attrs_view(f.attrs))) + tok(f.visibility@) + tok(f.name@) + ": "@ + tok(
        f.field_type@,
    )
}

pub open spec fn strip_fields_tokens(fs: Seq<Field>) -> Seq<char>
    decreases fs.len(),
{
    if fs.len() == 0 {
        Seq::empty()
    } else {
        strip_fields_tokens(fs.drop_last()) + (if fs.len() > 1 {
            ", "@
        } else {
            Seq::empty()
        }) + strip_field_tokens(fs.last())
    }
}

pub open spec fn strip_braced_fields(fs: Option<Vec<Field>>) -> Seq<char> {
    match fs {
        Some(f) => "{ "@ + strip_fields_tokens(f@) + "} "@,
        None => "{ } "@,
    }
}

/// A variant without its documentation attributes (its other attributes,
/// such as `#[default]`, kept), its named fields without their
/// documentation.
pub open spec fn strip_variant_tokens(v: Variant) -> Seq<char> {
    toks(opt_non_doc(attrs_view(v.attrs))) + tok(v.name@) + match v.data {
        Some(VariantData::Struct(fs)) => strip_braced_fields(fs),
        Some(VariantData::Other(t)) => tok(t@),
        None => Seq::empty(),
    }
}

pub open spec fn strip_variants_tokens(vs: Seq<Variant>) -> Seq<char>
    decreases vs.len(),
{
    if vs.len() == 0 {
        Seq::empty()
    } else {
        strip_variants_tokens(vs.drop_last()) + (if vs.len() > 1 {
            ", "@
        } else {
            Seq::empty()
        }) + strip_variant_tokens(vs.last())
    }
}

pub open spec fn strip_struct_tokens(s: StructDef) -> Seq<char> {
    toks(opt_non_doc(attrs_view(s.attrs))) + tok(s.head@) + tok(s.name@) + tok(s.generics@)
        + match s.body {
        StructBody::Named(fs) => strip_braced_fields(fs),
        StructBody::Tuple(t) => tok(t@),
        StructBody::Unit => "; "@,
    }
}

pub open spec fn strip_enum_tokens(e: EnumDef) -> Seq<char> {
    toks(opt_non_doc(attrs_view(e.attrs))) + tok(e.head@) + tok(e.name@) + tok(e.generics@) + "{ "@
        + match e.variants {
        Some(vs) => strip_variants_tokens(vs@),
        None => Seq::empty(),
    } + "} "@
}

pub open spec fn strip_sig_tokens(s: Signature) -> Seq<char> {
    toks(opt_non_doc(attrs_view(s.attrs))) + tok(s.head@) + tok(s.name@) + tok(s.tail@)
}

/// The tokens of an item with its documentation attributes (and those of
/// its fields and nested items) removed.
pub open spec fn strip_item_tokens(item: ModuleItem) -> Seq<char>
    decreases item,
{
    match item {
        ModuleItem::Function(s) => strip_sig_tokens(s),
        ModuleItem::TraitMethod(s) => strip_sig_tokens(s),
        ModuleItem::TypeAlias(s) => strip_sig_tokens(s),
        ModuleItem::Const(s) => strip_sig_tokens(s),
        ModuleItem::Static(s) => strip_sig_tokens(s),
        ModuleItem::Struct(s) => strip_struct_tokens(s),
        ModuleItem::Enum(e) => strip_enum_tokens(e),
        ModuleItem::Module(m) => toks(opt_non_doc(attrs_view(m.attrs))) + tok(m.head@) + tok(
            m.name@,
        ) + tok(m.generics@) + "{ "@ + toks(opt_non_doc(inner_attrs_view(m.body.inner_attrs)))
            + strip_items_tokens(m.body.items@) + "} "@,
        ModuleItem::Trait(m) => toks(opt_non_doc(attrs_view(m.attrs))) + tok(m.head@) + tok(
            m.name@,
        ) + tok(m.generics@) + "{ "@ + toks(opt_non_doc(inner_attrs_view(m.body.inner_attrs)))
            + strip_items_tokens(m.body.items@) + "} "@,
        ModuleItem::ImplBlock(b) => toks(opt_non_doc(attrs_view(b.attrs))) + tok(b.head@) + "{ "@
            + toks(opt_non_doc(inner_attrs_view(b.body.inner_attrs))) + strip_items_tokens(
            b.body.items@,
        ) + "} "@,
        ModuleItem::Other(t) => tok(t@),
    }
}

pub open spec fn strip_items_tokens(items: Seq<ModuleItem>) -> Seq<char>
    decreases items,
{
    if items.len() == 0 {
        Seq::empty()
    } else {
        strip_items_tokens(items.drop_last()) + strip_item_tokens(items.last())
    }
}

/// The tokens of a body or file with its documentation removed.
pub open spec fn strip_content_tokens(c: ModuleContent) -> Seq<char> {
    toks(opt_non_doc(inner_attrs_view(c.inner_attrs))) + strip_items_tokens(c.items@)
}

/// Keeps the inner attributes that are not documentation.
pub fn strip_inner_doc_attrs(inner_attrs: &Option<Vec<InnerAttribute>>) -> (r: Vec<InnerAttribute>)
    ensures
        r@.map_values(|a: InnerAttribute| a.tokens@) == opt_non_doc(inner_attrs_view(*inner_attrs)),
{
    let mut out: Vec<InnerAttribute> = Vec::new();
    if let Some(list) = inner_attrs {
        let ghost a = list@.map_values(|x: InnerAttribute| x.tokens@);
        let mut i: usize = 0;
        while i < list.len()
            invariant
                i <= list.len(),
                a == list@.map_values(|x: InnerAttribute| x.tokens@),
                a.len() == list.len(),
                out@.map_values(|x: InnerAttribute| x.tokens@) == non_doc(a.take(i as int)),
            decreases list.len() - i,
        {
            assert(a.take(i + 1).drop_last() == a.take(i as int));
            assert(a.take(i + 1).last() == list@[i as int].tokens@);
            if !is_inner_doc_attr(&list[i]) {
                let ghost before = out@;
                out.push(InnerAttribute { tokens: list[i].tokens.clone() });
                assert(out@.map_values(|x: InnerAttribute| x.tokens@) == before.map_values(
                    |x: InnerAttribute| x.tokens@,
                ).push(list@[i as int].tokens@));
            }
            i = i + 1;
        }
        assert(a.take(list.len() as int) == a);
    } else {
        assert(out@.map_values(|x: InnerAttribute| x.tokens@) =~= Seq::<Seq<char>>::empty());
    }
    out
}

/// Keeps the outer attributes that are not documentation.
pub fn strip_doc_attrs_from_attr_list(attrs: &Option<Vec<Attribute>>) -> (r: Vec<Attribute>)
    ensures
        r@.map_values(|a: Attribute| a.tokens@) == opt_non_doc(attrs_view(*attrs)),
{
    let mut out: Vec<Attribute> = Vec::new();
    if let Some(list) = attrs {
        let ghost a = list@.map_values(|x: Attribute| x.tokens@);
        let mut i: usize = 0;
        while i < list.len()
            invariant
                i <= list.len(),
                a == list@.map_values(|x: Attribute| x.tokens@),
                a.len() == list.len(),
                out@.map_values(|x: Attribute| x.tokens@) == non_doc(a.take(i as int)),
            decreases list.len() - i,
        {
            assert(a.take(i + 1).drop_last() == a.take(i as int));
            assert(a.take(i + 1).last() == list@[i as int].tokens@);
            if !is_outer_doc_attr(&list[i]) {
                let ghost before = out@;
                out.push(Attribute { tokens: list[i].tokens.clone() });
                assert(out@.map_values(|x: Attribute| x.tokens@) == before.map_values(
                    |x: Attribute| x.tokens@,
                ).push(list@[i as int].tokens@));
            }
            i = i + 1;
        }
        assert(a.take(list.len() as int) == a);
    } else {
        assert(out@.map_values(|x: Attribute| x.tokens@) =~= Seq::<Seq<char>>::empty());
    }
    out
}

/// Appends the tokens of attributes.
fn push_attr_list(out: &mut Vec<char>, attrs: &Vec<Attribute>)
    ensures
        final(out)@ == old(out)@ + toks(attrs@.map_values(|a: Attribute| a.tokens@)),
{
    let ghost a = attrs@.map_values(|x: Attribute| x.tokens@);
    let ghost start = out@;
    let mut i: usize = 0;
    while i < attrs.len()
        invariant
            i <= attrs.len(),
            a == attrs@.map_values(|x: Attribute| x.tokens@),
            a.len() == attrs.len(),
            out@ == start + toks(a.take(i as int)),
        decreases attrs.len() - i,
    {
        assert(a.take(i + 1).drop_last() == a.take(i as int));
        assert(a.take(i + 1).last() == attrs@[i as int].tokens@);
        push_tok(out, &attrs[i].tokens);
        i = i + 1;
    }
    assert(a.take(attrs.len() as int) == a);
}

/// Appends the attributes of a list that are not documentation.
fn push_non_doc_attrs(out: &mut Vec<char>, attrs: &Option<Vec<Attribute>>)
    ensures
        final(out)@ == old(out)@ + toks(opt_non_doc(attrs_view(*attrs))),
{
    let kept = strip_doc_attrs_from_attr_list(attrs);
    push_attr_list(out, &kept);
}

/// Appends the inner attributes of a list that are not documentation.
fn push_non_doc_inner(out: &mut Vec<char>, attrs: &Option<Vec<InnerAttribute>>)
    ensures
        final(out)@ == old(out)@ + toks(opt_non_doc(inner_attrs_view(*attrs))),
{
    let kept = strip_inner_doc_attrs(attrs);
    push_inner_attrs(out, &Some(kept));
}

fn push_stripped_fields(out: &mut Vec<char>, fs: &Option<Vec<Field>>)
    ensures
        final(out)@ == old(out)@ + strip_braced_fields(*fs),
{
    match fs {
        Some(f) => {
            push_text(out, "{ ");
            let ghost start = out@;
            let mut i: usize = 0;
            while i < f.len()
                invariant
                    i <= f.len(),
                    out@ == start + strip_fields_tokens(f@.take(i as int)),
                decreases f.len() - i,
            {
                assert(f@.take(i + 1).drop_last() == f@.take(i as int));
                assert(f@.take(i + 1).last() == f@[i as int]);
                if i > 0 {
                    push_text(out, ", ");
                }
                let fl = &f[i];
                push_non_doc_attrs(out, &fl.attrs);
                push_tok(out, &fl.visibility);
                push_tok(out, &fl.name);
                push_text(out, ": ");
                push_tok(out, &fl.field_type);
                i = i + 1;
            }
            assert(f@.take(f.len() as int) == f@);
            push_text(out, "} ");
        },
        None => push_text(out, "{ } "),
    }
}

fn push_stripped_variants(out: &mut Vec<char>, vs: &Vec<Variant>)
    ensures
        final(out)@ == old(out)@ + strip_variants_tokens(vs@),
{
    let ghost start = out@;
    let mut i: usize = 0;
    while i < vs.len()
        invariant
            i <= vs.len(),
            out@ == start + strip_variants_tokens(vs@.take(i as int)),
        decreases vs.len() - i,
    {
        assert(vs@.take(i + 1).drop_last() == vs@.take(i as int));
        assert(vs@.take(i + 1).last() == vs@[i as int]);
        if i > 0 {
            push_text(out, ", ");
        }
        let v = &vs[i];
        push_non_doc_attrs(out, &v.attrs);
        push_tok(out, &v.name);
        match &v.data {
            Some(VariantData::Struct(fs)) => push_stripped_fields(out, fs),
            Some(VariantData::Other(t)) => push_tok(out, t),
            None => {},
        }
        i = i + 1;
    }
    assert(vs@.take(vs.len() as int) == vs@);
}

fn push_stripped_struct(out: &mut Vec<char>, s: &StructDef)
    ensures
        final(out)@ == old(out)@ + strip_struct_tokens(*s),
{
    push_non_doc_attrs(out, &s.attrs);
    push_tok(out, &s.head);
    push_tok(out, &s.name);
    push_tok(out, &s.generics);
    match &s.body {
        StructBody::Named(fs) => push_stripped_fields(out, fs),
        StructBody::Tuple(t) => push_tok(out, t),
        StructBody::Unit => push_text(out, "; "),
    }
}

fn push_stripped_enum(out: &mut Vec<char>, e: &EnumDef)
    ensures
        final(out)@ == old(out)@ + strip_enum_tokens(*e),
{
    push_non_doc_attrs(out, &e.attrs);
    push_tok(out, &e.head);
    push_tok(out, &e.name);
    push_tok(out, &e.generics);
    push_text(out, "{ ");
    match &e.variants {
        Some(vs) => push_stripped_variants(out, vs),
        None => {},
    }
    push_text(out, "} ");
}

fn push_stripped_sig(out: &mut Vec<char>, s: &Signature)
    ensures
        final(out)@ == old(out)@ + strip_sig_tokens(*s),
{
    push_non_doc_attrs(out, &s.attrs);
    push_tok(out, &s.head);
    push_tok(out, &s.name);
    push_tok(out, &s.tail);
}

fn push_stripped_items(out: &mut Vec<char>, items: &Vec<ModuleItem>)
    ensures
        final(out)@ == old(out)@ + strip_items_tokens(items@),
    decreases items@, 1nat,
{
    let ghost start = out@;
    let mut i: usize = 0;
    while i < items.len()
        invariant
            i <= items.len(),
            out@ == start + strip_items_tokens(items@.take(i as int)),
        decreases items.len() - i,
    {
        assert(items@.take(i + 1).drop_last() == items@.take(i as int));
        assert(items@.take(i + 1).last() == items@[i as int]);
        proof {
            assert(decreases_to!(items@ => items@[i as int]));
        }
        strip_doc_attrs_from_item(out, &items[i]);
        i = i + 1;
    }
    assert(items@.take(items.len() as int) == items@);
}

/// Appends the tokens of an item with its documentation attributes removed:
/// its own, those of its fields and variants and those of nested items;
/// their other attributes are kept.
#[verifier::spinoff_prover]
#[verifier::rlimit(40)]
pub fn strip_doc_attrs_from_item(out: &mut Vec<char>, item: &ModuleItem)
    ensures
        final(out)@ == old(out)@ + strip_item_tokens(*item),
    decreases *item, 0nat,
{
    let ghost start = out@;
    match item {
        ModuleItem::Function(s) | ModuleItem::TraitMethod(s) | ModuleItem::TypeAlias(s)
        | ModuleItem::Const(s) | ModuleItem::Static(s) => push_stripped_sig(out, s),
        ModuleItem::Struct(s) => push_stripped_struct(out, s),
        ModuleItem::Enum(e) => push_stripped_enum(out, e),
        ModuleItem::Module(m) | ModuleItem::Trait(m) => {
            push_non_doc_attrs(out, &m.attrs);
            push_tok(out, &m.head);
            push_tok(out, &m.name);
            push_tok(out, &m.generics);
            push_text(out, "{ ");
            push_non_doc_inner(out, &m.body.inner_attrs);
            proof {
                if item is Module {
                    assert(decreases_to!(*item => (*item)->Module_0));
                } else {
                    assert(decreases_to!(*item => (*item)->Trait_0));
                }
                assert(decreases_to!(*m => m.body));
                assert(decreases_to!(m.body => m.body.items));
                assert(decreases_to!(m.body.items => m.body.items@));
            }
            push_stripped_items(out, &m.body.items);
            push_text(out, "} ");
        },
        ModuleItem::ImplBlock(b) => {
            push_non_doc_attrs(out, &b.attrs);
            push_tok(out, &b.head);
            push_text(out, "{ ");
            push_non_doc_inner(out, &b.body.inner_attrs);
            proof {
                assert(decreases_to!(*item => (*item)->ImplBlock_0));
                assert(decreases_to!(*b => b.body));
                assert(decreases_to!(b.body => b.body.items));
                assert(decreases_to!(b.body.items => b.body.items@));
            }
            push_stripped_items(out, &b.body.items);
            push_text(out, "} ");
        },
        ModuleItem::Other(t) => push_tok(out, t),
    }
    assert(out@ == start + strip_item_tokens(*item));
}

/// The tokens of a body or file with all documentation attributes removed:
/// its non-doc inner attributes, then its stripped items.
pub fn strip_doc_attrs_from_items(content: &ModuleContent) -> (r: Vec<char>)
    ensures
        r@ == strip_content_tokens(*content),
{
    let mut out: Vec<char> = Vec::new();
    push_non_doc_inner(&mut out, &content.inner_attrs);
    push_stripped_items(&mut out, &content.items);
    out
}

/// Stripping leaves no documentation attribute, keeps every other one,
/// and stripping again changes nothing.
pub proof fn lemma_strip_attrs(a: Seq<Seq<char>>)
    ensures
        forall|k: int| 0 <= k < non_doc(a).len() ==> !is_doc_bracket(#[trigger] non_doc(a)[k]),
        forall|k: int|
            0 <= k < a.len() && !is_doc_bracket(#[trigger] a[k]) ==> non_doc(a).contains(a[k]),
        non_doc(non_doc(a)) == non_doc(a),
    decreases a.len(),
{
    if a.len() > 0 {
        let p = a.drop_last();
        lemma_strip_attrs(p);
        assert forall|k: int| 0 <= k < a.len() && !is_doc_bracket(#[trigger] a[k]) implies non_doc(
            a,
        ).contains(a[k]) by {
            if k < a.len() - 1 {
                assert(a[k] == p[k]);
                let j = choose|j: int| 0 <= j < non_doc(p).len() && non_doc(p)[j] == p[k];
                if !is_doc_bracket(a.last()) {
                    assert(non_doc(a)[j] == p[k]);
                }
            } else {
                assert(non_doc(a).last() == a[k]);
            }
        }
        if !is_doc_bracket(a.last()) {
            let q = non_doc(p).push(a.last());
            assert(q.drop_last() == non_doc(p));
        }
    }
}

/// The attributes of an optional list (none when there is no list).
pub open spec fn attr_list(o: Option<Seq<Seq<char>>>) -> Seq<Seq<char>> {
    match o {
        Some(a) => a,
        None => Seq::empty(),
    }
}

/// Two attribute lists that differ at most in their documentation
/// attributes.
pub open spec fn same_but_docs(a: Option<Seq<Seq<char>>>, b: Option<Seq<Seq<char>>>) -> bool {
    attr_list(a).filter(|x: Seq<char>| !is_doc_bracket(x)) == attr_list(b).filter(
        |x: Seq<char>| !is_doc_bracket(x),
    )
}

pub open spec fn field_alike(x: Field, y: Field) -> bool {
    &&& same_but_docs(attrs_view(x.attrs), attrs_view(y.attrs))
    &&& x.visibility@ == y.visibility@
    &&& x.name@ == y.name@
    &&& x.field_type@ == y.field_type@
}

pub open spec fn fields_alike(a: Seq<Field>, b: Seq<Field>) -> bool {
    a.len() == b.len() && forall|i: int| 0 <= i < a.len() ==> #[trigger] field_alike(a[i], b[i])
}

pub open spec fn opt_fields_alike(a: Option<Vec<Field>>, b: Option<Vec<Field>>) -> bool {
    match (a, b) {
        (Some(x), Some(y)) => fields_alike(x@, y@),
        (None, None) => true,
        _ => false,
    }
}

pub open spec fn variant_alike(x: Variant, y: Variant) -> bool {
    &&& same_but_docs(attrs_view(x.attrs), attrs_view(y.attrs))
    &&& x.name@ == y.name@
    &&& match (x.data, y.data) {
        (None, None) => true,
        (Some(VariantData::Other(s)), Some(VariantData::Other(u))) => s@ == u@,
        (Some(VariantData::Struct(f)), Some(VariantData::Struct(g))) => opt_fields_alike(f, g),
        _ => false,
    }
}

pub open spec fn variants_alike(a: Seq<Variant>, b: Seq<Variant>) -> bool {
    a.len() == b.len() && forall|i: int| 0 <= i < a.len() ==> #[trigger] variant_alike(a[i], b[i])
}

pub open spec fn sig_alike(x: Signature, y: Signature) -> bool {
    &&& same_but_docs(attrs_view(x.attrs), attrs_view(y.attrs))
    &&& x.head@ == y.head@
    &&& x.name@ == y.name@
    &&& x.tail@ == y.tail@
}

/// Two bodies alike but for documentation, given that their items are.
pub open spec fn body_alike_head(a: ModuleContent, b: ModuleContent) -> bool {
    &&& same_but_docs(inner_attrs_view(a.inner_attrs), inner_attrs_view(b.inner_attrs))
    &&& a.items@.len() == b.items@.len()
}

/// Two items that differ at most in documentation attributes, their own and
/// those of their fields, variants and nested items, at any depth.
pub open spec fn item_alike(a: ModuleItem, b: ModuleItem) -> bool
    decreases a,
{
    match a {
        ModuleItem::Function(s) => b matches ModuleItem::Function(u) && sig_alike(s, u),
        ModuleItem::TraitMethod(s) => b matches ModuleItem::TraitMethod(u) && sig_alike(s, u),
        ModuleItem::TypeAlias(s) => b matches ModuleItem::TypeAlias(u) && sig_alike(s, u),
        ModuleItem::Const(s) => b matches ModuleItem::Const(u) && sig_alike(s, u),
        ModuleItem::Static(s) => b matches ModuleItem::Static(u) && sig_alike(s, u),
        ModuleItem::Struct(s) => b matches ModuleItem::Struct(u) && same_but_docs(
            attrs_view(s.attrs),
            attrs_view(u.attrs),
        ) && s.head@ == u.head@ && s.name@ == u.name@ && s.generics@ == u.generics@ && match (
            s.body,
            u.body,
        ) {
            (StructBody::Named(f), StructBody::Named(g)) => opt_fields_alike(f, g),
            (StructBody::Tuple(x), StructBody::Tuple(y)) => x@ == y@,
            (StructBody::Unit, StructBody::Unit) => true,
            _ => false,
        },
        ModuleItem::Enum(e) => b matches ModuleItem::Enum(u) && same_but_docs(
            attrs_view(e.attrs),
            attrs_view(u.attrs),
        ) && e.head@ == u.head@ && e.name@ == u.name@ && e.generics@ == u.generics@ && match (
            e.variants,
            u.variants,
        ) {
            (Some(x), Some(y)) => variants_alike(x@, y@),
            (None, None) => true,
            _ => false,
        },
        ModuleItem::Module(m) => b matches ModuleItem::Module(n) && same_but_docs(
            attrs_view(m.attrs),
            attrs_view(n.attrs),
        ) && m.head@ == n.head@ && m.name@ == n.name@ && m.generics@ == n.generics@
            && body_alike_head(m.body, n.body) && forall|i: int|
            0 <= i < m.body.items@.len() ==> item_alike(
                #[trigger] m.body.items@[i],
                n.body.items@[i],
            ),
        ModuleItem::Trait(m) => b matches ModuleItem::Trait(n) && same_but_docs(
            attrs_view(m.attrs),
            attrs_view(n.attrs),
        ) && m.head@ == n.head@ && m.name@ == n.name@ && m.generics@ == n.generics@
            && body_alike_head(m.body, n.body) && forall|i: int|
            0 <= i < m.body.items@.len() ==> item_alike(
                #[trigger] m.body.items@[i],
                n.body.items@[i],
            ),
        ModuleItem::ImplBlock(c) => b matches ModuleItem::ImplBlock(d) && same_but_docs(
            attrs_view(c.attrs),
            attrs_view(d.attrs),
        ) && c.head@ == d.head@ && body_alike_head(c.body, d.body) && forall|i: int|
            0 <= i < c.body.items@.len() ==> item_alike(
                #[trigger] c.body.items@[i],
                d.body.items@[i],
            ),
        ModuleItem::Other(x) => b matches ModuleItem::Other(y) && x@ == y@,
    }
}

proof fn lemma_non_doc_filter(a: Seq<Seq<char>>)
    ensures
        non_doc(a) == a.filter(|x: Seq<char>| !is_doc_bracket(x)),
    decreases a.len(),
{
    reveal(Seq::filter);
    if a.len() > 0 {
        lemma_non_doc_filter(a.drop_last());
    }
}

proof fn lemma_same_attrs(a: Option<Seq<Seq<char>>>, b: Option<Seq<Seq<char>>>)
    requires
        same_but_docs(a, b),
    ensures
        opt_non_doc(a) == opt_non_doc(b),
{
    lemma_non_doc_filter(attr_list(a));
    lemma_non_doc_filter(attr_list(b));
    assert(non_doc(Seq::<Seq<char>>::empty()) == Seq::<Seq<char>>::empty());
}

proof fn lemma_fields_alike(a: Seq<Field>, b: Seq<Field>)
    requires
        fields_alike(a, b),
    ensures
        strip_fields_tokens(a) == strip_fields_tokens(b),
    decreases a.len(),
{
    if a.len() > 0 {
        let k = a.len() - 1;
        assert(field_alike(a[k], b[k]));
        lemma_same_attrs(attrs_view(a[k].attrs), attrs_view(b[k].attrs));
        assert(fields_alike(a.drop_last(), b.drop_last())) by {
            assert forall|i: int| 0 <= i < a.drop_last().len() implies #[trigger] field_alike(
                a.drop_last()[i],
                b.drop_last()[i],
            ) by {
                assert(field_alike(a[i], b[i]));
            }
        }
        lemma_fields_alike(a.drop_last(), b.drop_last());
    }
}

proof fn lemma_opt_fields_alike(a: Option<Vec<Field>>, b: Option<Vec<Field>>)
    requires
        opt_fields_alike(a, b),
    ensures
        strip_braced_fields(a) == strip_braced_fields(b),
{
    if let (Some(x), Some(y)) = (a, b) {
        lemma_fields_alike(x@, y@);
    }
}

proof fn lemma_variants_alike(a: Seq<Variant>, b: Seq<Variant>)
    requires
        variants_alike(a, b),
    ensures
        strip_variants_tokens(a) == strip_variants_tokens(b),
    decreases a.len(),
{
    if a.len() > 0 {
        let k = a.len() - 1;
        assert(variant_alike(a[k], b[k]));
        lemma_same_attrs(attrs_view(a[k].attrs), attrs_view(b[k].attrs));
        match (a[k].data, b[k].data) {
            (Some(VariantData::Struct(f)), Some(VariantData::Struct(g))) => lemma_opt_fields_alike(f, g),
            _ => {},
        }
        assert(strip_variant_tokens(a[k]) == strip_variant_tokens(b[k]));
        assert(variants_alike(a.drop_last(), b.drop_last())) by {
            assert forall|i: int| 0 <= i < a.drop_last().len() implies #[trigger] variant_alike(
                a.drop_last()[i],
                b.drop_last()[i],
            ) by {
                assert(variant_alike(a[i], b[i]));
            }
        }
        lemma_variants_alike(a.drop_last(), b.drop_last());
    }
}

proof fn lemma_items_alike(a: Seq<ModuleItem>, b: Seq<ModuleItem>)
    requires
        a.len() == b.len(),
        forall|i: int| 0 <= i < a.len() ==> item_alike(#[trigger] a[i], b[i]),
    ensures
        strip_items_tokens(a) == strip_items_tokens(b),
    decreases a, 1nat,
{
    if a.len() > 0 {
        let k = a.len() - 1;
        assert(decreases_to!(a => a.drop_last()));
        assert(decreases_to!(a => a[k]));
        assert(item_alike(a[k], b[k]));
        lemma_item_alike(a[k], b[k]);
        assert forall|i: int| 0 <= i < a.drop_last().len() implies item_alike(
            #[trigger] a.drop_last()[i],
            b.drop_last()[i],
        ) by {
            assert(item_alike(a[i], b[i]));
        }
        lemma_items_alike(a.drop_last(), b.drop_last());
        assert(a.last() == a[k] && b.last() == b[k]);
    }
}

/// Stripping looks at nothing but what is not documentation: two items that
/// differ only in documentation attributes, at any depth (their own, those
/// of fields and variants, and those of items nested in modules, traits and
/// impl blocks), strip to the same tokens.
pub proof fn lemma_item_alike(a: ModuleItem, b: ModuleItem)
    requires
        item_alike(a, b),
    ensures
        strip_item_tokens(a) == strip_item_tokens(b),
    decreases a, 0nat,
{
    match a {
        ModuleItem::Function(s) => {
            let u = b->Function_0;
            lemma_same_attrs(attrs_view(s.attrs), attrs_view(u.attrs));
        },
        ModuleItem::TraitMethod(s) => {
            let u = b->TraitMethod_0;
            lemma_same_attrs(attrs_view(s.attrs), attrs_view(u.attrs));
        },
        ModuleItem::TypeAlias(s) => {
            let u = b->TypeAlias_0;
            lemma_same_attrs(attrs_view(s.attrs), attrs_view(u.attrs));
        },
        ModuleItem::Const(s) => {
            let u = b->Const_0;
            lemma_same_attrs(attrs_view(s.attrs), attrs_view(u.attrs));
        },
        ModuleItem::Static(s) => {
            let u = b->Static_0;
            lemma_same_attrs(attrs_view(s.attrs), attrs_view(u.attrs));
        },
        ModuleItem::Struct(s) => {
            let u = b->Struct_0;
            lemma_same_attrs(attrs_view(s.attrs), attrs_view(u.attrs));
            match (s.body, u.body) {
                (StructBody::Named(f), StructBody::Named(g)) => lemma_opt_fields_alike(f, g),
                _ => {},
            }
        },
        ModuleItem::Enum(e) => {
            let u = b->Enum_0;
            lemma_same_attrs(attrs_view(e.attrs), attrs_view(u.attrs));
            match (e.variants, u.variants) {
                (Some(x), Some(y)) => lemma_variants_alike(x@, y@),
                _ => {},
            }
        },
        ModuleItem::Module(m) => {
            let n = b->Module_0;
            assert(decreases_to!(a => m));
            assert(decreases_to!(m => m.body));
            assert(decreases_to!(m.body => m.body.items));
            assert(decreases_to!(m.body.items => m.body.items@));
            lemma_same_attrs(attrs_view(m.attrs), attrs_view(n.attrs));
            lemma_same_attrs(inner_attrs_view(m.body.inner_attrs), inner_attrs_view(n.body.inner_attrs));
            lemma_items_alike(m.body.items@, n.body.items@);
        },
        ModuleItem::Trait(m) => {
            let n = b->Trait_0;
            assert(decreases_to!(a => m));
            assert(decreases_to!(m => m.body));
            assert(decreases_to!(m.body => m.body.items));
            assert(decreases_to!(m.body.items => m.body.items@));
            lemma_same_attrs(attrs_view(m.attrs), attrs_view(n.attrs));
            lemma_same_attrs(inner_attrs_view(m.body.inner_attrs), inner_attrs_view(n.body.inner_attrs));
            lemma_items_alike(m.body.items@, n.body.items@);
        },
        ModuleItem::ImplBlock(c) => {
            let d = b->ImplBlock_0;
            assert(decreases_to!(a => c));
            assert(decreases_to!(c => c.body));
            assert(decreases_to!(c.body => c.body.items));
            assert(decreases_to!(c.body.items => c.body.items@));
            lemma_same_attrs(attrs_view(c.attrs), attrs_view(d.attrs));
            lemma_same_attrs(inner_attrs_view(c.body.inner_attrs), inner_attrs_view(d.body.inner_attrs));
            lemma_items_alike(c.body.items@, d.body.items@);
        },
        ModuleItem::Other(_) => {},
    }
}

/// An attribute list without documentation attributes.
pub open spec fn no_docs(o: Option<Seq<Seq<char>>>) -> bool {
    forall|k: int| 0 <= k < attr_list(o).len() ==> !is_doc_bracket(#[trigger] attr_list(o)[k])
}

pub open spec fn fields_doc_free(fs: Seq<Field>) -> bool {
    forall|i: int| 0 <= i < fs.len() ==> no_docs(attrs_view(#[trigger] fs[i].attrs))
}

pub open spec fn opt_fields_doc_free(fs: Option<Vec<Field>>) -> bool {
    match fs {
        Some(f) => fields_doc_free(f@),
        None => true,
    }
}

pub open spec fn variant_doc_free(v: Variant) -> bool {
    &&& no_docs(attrs_view(v.attrs))
    &&& match v.data {
        Some(VariantData::Struct(fs)) => opt_fields_doc_free(fs),
        _ => true,
    }
}

/// An item without documentation attributes anywhere: its own, those of
/// its fields and variants, and those of the items nested in it.
pub open spec fn item_doc_free(item: ModuleItem) -> bool
    decreases item,
{
    match item {
        ModuleItem::Function(s) => no_docs(attrs_view(s.attrs)),
        ModuleItem::TraitMethod(s) => no_docs(attrs_view(s.attrs)),
        ModuleItem::TypeAlias(s) => no_docs(attrs_view(s.attrs)),
        ModuleItem::Const(s) => no_docs(attrs_view(s.attrs)),
        ModuleItem::Static(s) => no_docs(attrs_view(s.attrs)),
        ModuleItem::Struct(s) => no_docs(attrs_view(s.attrs)) && match s.body {
            StructBody::Named(fs) => opt_fields_doc_free(fs),
            _ => true,
        },
        ModuleItem::Enum(e) => no_docs(attrs_view(e.attrs)) && match e.variants {
            Some(vs) => forall|i: int| 0 <= i < vs@.len() ==> variant_doc_free(#[trigger] vs@[i]),
            None => true,
        },
        ModuleItem::Module(m) => no_docs(attrs_view(m.attrs)) && no_docs(
            inner_attrs_view(m.body.inner_attrs),
        ) && forall|i: int|
            0 <= i < m.body.items@.len() ==> item_doc_free(#[trigger] m.body.items@[i]),
        ModuleItem::Trait(m) => no_docs(attrs_view(m.attrs)) && no_docs(
            inner_attrs_view(m.body.inner_attrs),
        ) && forall|i: int|
            0 <= i < m.body.items@.len() ==> item_doc_free(#[trigger] m.body.items@[i]),
        ModuleItem::ImplBlock(b) => no_docs(attrs_view(b.attrs)) && no_docs(
            inner_attrs_view(b.body.inner_attrs),
        ) && forall|i: int|
            0 <= i < b.body.items@.len() ==> item_doc_free(#[trigger] b.body.items@[i]),
        ModuleItem::Other(_) => true,
    }
}

proof fn lemma_non_doc_id(a: Seq<Seq<char>>)
    requires
        forall|k: int| 0 <= k < a.len() ==> !is_doc_bracket(#[trigger] a[k]),
    ensures
        non_doc(a) == a,
    decreases a.len(),
{
    if a.len() > 0 {
        lemma_non_doc_id(a.drop_last());
        assert(!is_doc_bracket(a[a.len() - 1]));
        assert(a.drop_last().push(a.last()) =~= a);
    }
}

proof fn lemma_no_docs_toks(o: Option<Seq<Seq<char>>>)
    requires
        no_docs(o),
    ensures
        toks(opt_non_doc(o)) == opt_toks(o),
{
    lemma_non_doc_id(attr_list(o));
    if o is None {
        assert(non_doc(Seq::<Seq<char>>::empty()) == Seq::<Seq<char>>::empty());
    }
}

proof fn lemma_fields_doc_free(fs: Seq<Field>)
    requires
        fields_doc_free(fs),
    ensures
        strip_fields_tokens(fs) == fields_tokens(fs),
    decreases fs.len(),
{
    if fs.len() > 0 {
        let k = fs.len() - 1;
        lemma_no_docs_toks(attrs_view(fs[k].attrs));
        assert(fields_doc_free(fs.drop_last())) by {
            assert forall|i: int| 0 <= i < fs.drop_last().len() implies no_docs(
                attrs_view(#[trigger] fs.drop_last()[i].attrs),
            ) by {
                assert(fs.drop_last()[i] == fs[i]);
            }
        }
        lemma_fields_doc_free(fs.drop_last());
        assert(fs.last() == fs[k]);
    }
}

proof fn lemma_opt_fields_doc_free(fs: Option<Vec<Field>>)
    requires
        opt_fields_doc_free(fs),
    ensures
        strip_braced_fields(fs) == braced_fields(fs),
{
    if let Some(f) = fs {
        lemma_fields_doc_free(f@);
    }
}

proof fn lemma_variants_doc_free(vs: Seq<Variant>)
    requires
        forall|i: int| 0 <= i < vs.len() ==> variant_doc_free(#[trigger] vs[i]),
    ensures
        strip_variants_tokens(vs) == variants_tokens(vs),
    decreases vs.len(),
{
    if vs.len() > 0 {
        let k = vs.len() - 1;
        let v = vs[k];
        assert(variant_doc_free(v));
        lemma_no_docs_toks(attrs_view(v.attrs));
        match v.data {
            Some(VariantData::Struct(fs)) => lemma_opt_fields_doc_free(fs),
            _ => {},
        }
        assert(strip_variant_tokens(v) == variant_tokens(v));
        assert forall|i: int| 0 <= i < vs.drop_last().len() implies variant_doc_free(
            #[trigger] vs.drop_last()[i],
        ) by {
            assert(vs.drop_last()[i] == vs[i]);
        }
        lemma_variants_doc_free(vs.drop_last());
        assert(vs.last() == v);
    }
}

proof fn lemma_items_doc_free(items: Seq<ModuleItem>)
    requires
        forall|i: int| 0 <= i < items.len() ==> item_doc_free(#[trigger] items[i]),
    ensures
        strip_items_tokens(items) == items_tokens(items),
    decreases items, 1nat,
{
    if items.len() > 0 {
        let k = items.len() - 1;
        assert(decreases_to!(items => items.drop_last()));
        assert(decreases_to!(items => items[k]));
        assert(item_doc_free(items[k]));
        lemma_item_doc_free(items[k]);
        assert forall|i: int| 0 <= i < items.drop_last().len() implies item_doc_free(
            #[trigger] items.drop_last()[i],
        ) by {
            assert(items.drop_last()[i] == items[i]);
        }
        lemma_items_doc_free(items.drop_last());
        assert(items.last() == items[k]);
    }
}

/// Stripping keeps everything that is not documentation: an item with no
/// documentation attribute anywhere strips to its own tokens, unchanged.
pub proof fn lemma_item_doc_free(item: ModuleItem)
    requires
        item_doc_free(item),
    ensures
        strip_item_tokens(item) == item_tokens(item),
    decreases item, 0nat,
{
    match item {
        ModuleItem::Function(s) => lemma_no_docs_toks(attrs_view(s.attrs)),
        ModuleItem::TraitMethod(s) => lemma_no_docs_toks(attrs_view(s.attrs)),
        ModuleItem::TypeAlias(s) => lemma_no_docs_toks(attrs_view(s.attrs)),
        ModuleItem::Const(s) => lemma_no_docs_toks(attrs_view(s.attrs)),
        ModuleItem::Static(s) => lemma_no_docs_toks(attrs_view(s.attrs)),
        ModuleItem::Struct(s) => {
            lemma_no_docs_toks(attrs_view(s.attrs));
            match s.body {
                StructBody::Named(fs) => lemma_opt_fields_doc_free(fs),
                _ => {},
            }
        },
        ModuleItem::Enum(e) => {
            lemma_no_docs_toks(attrs_view(e.attrs));
            let head = opt_toks(attrs_view(e.attrs)) + tok(e.head@) + tok(e.name@) + tok(
                e.generics@,
            );
            match e.variants {
                Some(vs) => {
                    lemma_variants_doc_free(vs@);
                    assert(strip_item_tokens(item) =~= head + ("{ "@ + variants_tokens(vs@)
                        + "} "@));
                },
                None => {
                    reveal_strlit("{ ");
                    reveal_strlit("} ");
                    reveal_strlit("{ } ");
                    assert(strip_item_tokens(item) =~= head + "{ } "@);
                },
            }
        },
        ModuleItem::Module(m) => {
            assert(decreases_to!(item => m));
            assert(decreases_to!(m => m.body));
            assert(decreases_to!(m.body => m.body.items));
            assert(decreases_to!(m.body.items => m.body.items@));
            lemma_no_docs_toks(attrs_view(m.attrs));
            lemma_no_docs_toks(inner_attrs_view(m.body.inner_attrs));
            lemma_items_doc_free(m.body.items@);
        },
        ModuleItem::Trait(m) => {
            assert(decreases_to!(item => m));
            assert(decreases_to!(m => m.body));
            assert(decreases_to!(m.body => m.body.items));
            assert(decreases_to!(m.body.items => m.body.items@));
            lemma_no_docs_toks(attrs_view(m.attrs));
            lemma_no_docs_toks(inner_attrs_view(m.body.inner_attrs));
            lemma_items_doc_free(m.body.items@);
        },
        ModuleItem::ImplBlock(b) => {
            assert(decreases_to!(item => b));
            assert(decreases_to!(b => b.body));
            assert(decreases_to!(b.body => b.body.items));
            assert(decreases_to!(b.body.items => b.body.items@));
            lemma_no_docs_toks(attrs_view(b.attrs));
            lemma_no_docs_toks(inner_attrs_view(b.body.inner_attrs));
            lemma_items_doc_free(b.body.items@);
        },
        ModuleItem::Other(_) => {},
    }
}

} // verus!
