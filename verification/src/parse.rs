//! The parser adapter, and the library's one trusted boundary: `syn` parses
//! the text, and the helpers here reduce its syntax tree — items, nested
//! modules, implementation blocks, trait bodies, and items nested in function
//! bodies — to the plain `FnNode` forest that the verified walker consumes.
//! Every function in this file is trusted; nothing else in the crate touches
//! the outside parser.

use vstd::prelude::*;

use syn::spanned::Spanned;

use crate::tree::Attr;
use crate::tree::AttrKind;
use crate::tree::FieldBinding;
use crate::tree::FnNode;
use crate::tree::Param;
use crate::tree::Span;

verus! {

#[verifier::external_type_specification]
#[verifier::external_body]
pub struct ExItem(syn::Item);

#[verifier::external_type_specification]
#[verifier::external_body]
pub struct ExItemMod(syn::ItemMod);

#[verifier::external_type_specification]
#[verifier::external_body]
pub struct ExItemImpl(syn::ItemImpl);

#[verifier::external_type_specification]
#[verifier::external_body]
pub struct ExItemTrait(syn::ItemTrait);

#[verifier::external_type_specification]
#[verifier::external_body]
pub struct ExBlock(syn::Block);

#[verifier::external_type_specification]
#[verifier::external_body]
pub struct ExAttribute(syn::Attribute);

#[verifier::external_type_specification]
#[verifier::external_body]
pub struct ExSignature(syn::Signature);

#[verifier::external_type_specification]
#[verifier::external_body]
pub struct ExPat(syn::Pat);

#[verifier::external_type_specification]
#[verifier::external_body]
pub struct ExFieldPat(syn::FieldPat);

#[verifier::external_type_specification]
#[verifier::external_body]
pub struct ExPath(syn::Path);

/// The forest of function-like items that a valid text reduces to, or
/// nothing when the text does not parse; a function of the text alone.
pub uninterp spec fn parse_of(text: Seq<char>) -> Option<Seq<FnNode>>;

/// Relies on `syn::parse_file`: parses the complete text of a source file,
/// deterministically in the text alone, or reports its diagnostic on
/// malformed input. The helpers below reduce the parsed tree to the forest.
#[verifier::external_body]
pub(crate) fn parse_forest(text: &str) -> (r: Result<Vec<FnNode>, String>)
    ensures
        r matches Ok(f) ==> parse_of(text@) == Some(f@),
        r is Err <==> parse_of(text@) is None,
{
    match syn::parse_file(text) {
        Ok(file) => {
            let mut roots = Vec::new();
            for item in &file.items {
                push_item(item, &mut roots);
            }
            Ok(roots)
        },
        Err(e) => Err(e.to_string()),
    }
}

/// Relies on `syn::Item`: a free function becomes a node, and modules,
/// implementation blocks, and traits are searched for further functions;
/// other item kinds hold none that the tool classifies.
#[verifier::external_body]
fn push_item(item: &syn::Item, out: &mut Vec<FnNode>) {
    match item {
        syn::Item::Fn(f) => {
            let (s, e) = (f.span().start(), f.span().end());
            out.push(fn_node(&f.attrs, &f.sig, &f.block, s.line, s.column, e.line, e.column));
        },
        syn::Item::Mod(m) => push_mod(m, out),
        syn::Item::Impl(i) => push_impl(i, out),
        syn::Item::Trait(t) => push_trait(t, out),
        _ => {},
    }
}

/// Relies on `syn::ItemMod::content`: the items of an inline module, absent
/// on a `mod name;` declaration.
#[verifier::external_body]
fn push_mod(m: &syn::ItemMod, out: &mut Vec<FnNode>) {
    if let Some((_, items)) = &m.content {
        for item in items {
            push_item(item, out);
        }
    }
}

/// Relies on `syn::ItemImpl::items`: each associated function of an
/// implementation block becomes a node.
#[verifier::external_body]
fn push_impl(i: &syn::ItemImpl, out: &mut Vec<FnNode>) {
    for item in &i.items {
        if let syn::ImplItem::Fn(f) = item {
            let (s, e) = (f.span().start(), f.span().end());
            out.push(fn_node(&f.attrs, &f.sig, &f.block, s.line, s.column, e.line, e.column));
        }
    }
}

/// Relies on `syn::ItemTrait::items`: trait methods are not themselves
/// classified, but their default bodies are searched for nested items.
#[verifier::external_body]
fn push_trait(t: &syn::ItemTrait, out: &mut Vec<FnNode>) {
    for item in &t.items {
        if let syn::TraitItem::Fn(f) = item {
            if let Some(block) = &f.default {
                push_block(block, out);
            }
        }
    }
}

/// Relies on `syn::Block::stmts`: an item standing as a statement is
/// searched like a top-level item.
#[verifier::external_body]
fn push_block(b: &syn::Block, out: &mut Vec<FnNode>) {
    for stmt in &b.stmts {
        if let syn::Stmt::Item(item) = stmt {
            push_item(item, out);
        }
    }
}

/// Relies on `syn::ItemFn` and `syn::ImplItemFn` sharing attributes, a
/// signature, and a body, and on `proc_macro2`'s line/column convention:
/// 1-based lines, 0-based character columns, ends inclusive. Builds the node
/// for one function-like item.
#[verifier::external_body]
fn fn_node(
    attrs: &Vec<syn::Attribute>,
    sig: &syn::Signature,
    block: &syn::Block,
    sl: usize,
    sc: usize,
    el: usize,
    ec: usize,
) -> FnNode {
    let mut children = Vec::new();
    push_block(block, &mut children);
    FnNode {
        attrs: attr_list(attrs),
        params: param_list(sig),
        is_const: sig.constness.is_some(),
        span: Span { start_line: sl, start_col: sc, end_line: el, end_col: ec },
        children,
    }
}

/// Relies on `syn::Attribute`: converts each attribute of a list.
#[verifier::external_body]
fn attr_list(attrs: &Vec<syn::Attribute>) -> Vec<Attr> {
    let mut out = Vec::new();
    for a in attrs {
        out.push(attr_desc(a));
    }
    out
}

/// Relies on `syn::Meta`: a path is a bare marker, a list a call-style
/// marker, a name-value form neither; the span covers the whole attribute,
/// in `proc_macro2`'s convention of 1-based lines and 0-based columns.
#[verifier::external_body]
fn attr_desc(a: &syn::Attribute) -> Attr {
    let (kind, name) = match &a.meta {
        syn::Meta::Path(p) => (AttrKind::Bare, last_segment(p)),
        syn::Meta::List(l) => (AttrKind::Call, last_segment(&l.path)),
        syn::Meta::NameValue(_) => (AttrKind::NameValue, String::new()),
    };
    let (s, e) = (a.span().start(), a.span().end());
    Attr {
        kind,
        name,
        span: Span { start_line: s.line, start_col: s.column, end_line: e.line, end_col: e.column },
    }
}

/// Relies on `syn::Path::segments` and `syn::Ident::to_string`: the final
/// segment's identifier, or empty for the empty path.
#[verifier::external_body]
fn last_segment(p: &syn::Path) -> String {
    match p.segments.last() {
        Some(seg) => seg.ident.to_string(),
        None => String::new(),
    }
}

/// Relies on `syn::FnArg`: a receiver keeps its place, a typed argument is
/// reduced through its pattern.
#[verifier::external_body]
fn param_list(sig: &syn::Signature) -> Vec<Param> {
    let mut out = Vec::new();
    for arg in &sig.inputs {
        out.push(match arg {
            syn::FnArg::Receiver(_) => Param::Receiver,
            syn::FnArg::Typed(t) => pat_param(&t.pat),
        });
    }
    out
}

/// Relies on `syn::Pat`: an identifier pattern contributes its name, a
/// struct pattern its fields, and every other pattern nothing.
#[verifier::external_body]
fn pat_param(p: &syn::Pat) -> Param {
    match p {
        syn::Pat::Ident(i) => Param::Named(i.ident.to_string()),
        syn::Pat::Struct(s) => {
            let mut fields = Vec::new();
            for f in &s.fields {
                fields.push(field_binding(f));
            }
            Param::Fields(fields)
        },
        _ => Param::Other,
    }
}

/// Relies on `syn::Member`: a named field keeps its identifier, a positional
/// field contributes none.
#[verifier::external_body]
fn field_binding(f: &syn::FieldPat) -> FieldBinding {
    match &f.member {
        syn::Member::Named(id) => FieldBinding::Named(id.to_string()),
        syn::Member::Unnamed(_) => FieldBinding::Unnamed,
    }
}

} // verus!
