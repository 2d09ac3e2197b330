//! Reading Rust source text: syn parses it, and the items it yields are lowered
//! into the checker's own plain model (`RawItem`), with every type and binding
//! pattern reduced to its canonical token text.
use vstd::prelude::*;
use crate::model::{
    Declaration, FieldShape, FunctionShape, NamedField, Param, RawItem, VariantShape,
};
use quote::ToTokens;

verus! {

#[verifier::external_type_specification]
#[verifier::external_body]
pub struct ExItem(syn::Item);

#[verifier::external_type_specification]
#[verifier::external_body]
pub struct ExVisibility(syn::Visibility);

#[verifier::external_type_specification]
#[verifier::external_body]
pub struct ExIdent(syn::Ident);

#[verifier::external_type_specification]
#[verifier::external_body]
pub struct ExType(syn::Type);

#[verifier::external_type_specification]
#[verifier::external_body]
pub struct ExPat(syn::Pat);

#[verifier::external_type_specification]
#[verifier::external_body]
pub struct ExFields(syn::Fields);

#[verifier::external_type_specification]
#[verifier::external_body]
pub struct ExField(syn::Field);

#[verifier::external_type_specification]
#[verifier::external_body]
pub struct ExVariant(syn::Variant);

#[verifier::external_type_specification]
#[verifier::external_body]
pub struct ExSignature(syn::Signature);

#[verifier::external_type_specification]
#[verifier::external_body]
pub struct ExFnArg(syn::FnArg);

/// The parts of a syn item that the checker reads, per kind.
enum ItemParts<'a> {
    Const(&'a syn::Visibility, &'a syn::Ident, &'a syn::Type),
    Static(&'a syn::Visibility, bool, &'a syn::Ident, &'a syn::Type),
    Union(&'a syn::Visibility, &'a syn::Ident, Vec<&'a syn::Field>),
    TypeAlias(&'a syn::Visibility, &'a syn::Ident, &'a syn::Type),
    Struct(&'a syn::Visibility, &'a syn::Ident, &'a syn::Fields),
    Enum(&'a syn::Visibility, &'a syn::Ident, Vec<&'a syn::Variant>),
    Function(&'a syn::Visibility, &'a syn::Signature),
    Macro(Option<&'a syn::Ident>),
    Module(&'a syn::Visibility, &'a syn::Ident, Option<&'a Vec<syn::Item>>),
    Other,
}

/// The parts of a syn field list.
enum FieldsParts<'a> {
    Unit,
    Unnamed(Vec<&'a syn::Field>),
    Named(Vec<&'a syn::Field>),
}

/// The parts of a syn function parameter.
enum ArgParts<'a> {
    Receiver(bool, bool, &'a syn::Type),
    Typed(&'a syn::Pat, &'a syn::Type),
}

/// The parts of a syn function signature.
struct SignatureParts<'a> {
    pub is_const: bool,
    pub is_async: bool,
    pub is_unsafe: bool,
    pub ident: &'a syn::Ident,
    pub inputs: Vec<&'a syn::FnArg>,
    pub output: Option<&'a syn::Type>,
}

/// Whether syn accepts `text` as a whole Rust source file.
pub uninterp spec fn accepted_source(text: Seq<char>) -> bool;

/// Relies on syn::parse_file: parses a whole source file into its items, and
/// succeeds exactly on the texts it accepts; the error is rendered as text.
#[verifier::external_body]
fn parse_items(text: &str) -> (r: Result<Vec<syn::Item>, String>)
    ensures
        r is Ok <==> accepted_source(text@),
{
    syn::parse_file(text).map(|f| f.items).map_err(|e| e.to_string())
}

/// Relies on syn::Item's declaration kinds: borrows the fields of a const,
/// static, union, type alias or struct item.
#[verifier::external_body]
fn split_data_item(item: &syn::Item) -> ItemParts<'_> {
    match item {
        syn::Item::Const(i) => ItemParts::Const(&i.vis, &i.ident, &i.ty),
        syn::Item::Static(i) => ItemParts::Static(
            &i.vis,
            matches!(i.mutability, syn::StaticMutability::Mut(_)),
            &i.ident,
            &i.ty,
        ),
        syn::Item::Union(i) => ItemParts::Union(&i.vis, &i.ident, i.fields.named.iter().collect()),
        syn::Item::Type(i) => ItemParts::TypeAlias(&i.vis, &i.ident, &i.ty),
        syn::Item::Struct(i) => ItemParts::Struct(&i.vis, &i.ident, &i.fields),
        _ => ItemParts::Other,
    }
}

/// Relies on syn::Item's declaration kinds: borrows the fields of an enum,
/// function, macro or module item.
#[verifier::external_body]
fn split_code_item(item: &syn::Item) -> ItemParts<'_> {
    match item {
        syn::Item::Enum(i) => ItemParts::Enum(&i.vis, &i.ident, i.variants.iter().collect()),
        syn::Item::Fn(i) => ItemParts::Function(&i.vis, &i.sig),
        syn::Item::Macro(i) => ItemParts::Macro(i.ident.as_ref()),
        syn::Item::Mod(i) => ItemParts::Module(&i.vis, &i.ident, i.content.as_ref().map(|c| &c.1)),
        _ => ItemParts::Other,
    }
}

/// Relies on syn::Visibility: true for the `pub` variant alone.
#[verifier::external_body]
fn is_public(vis: &syn::Visibility) -> bool {
    matches!(vis, syn::Visibility::Public(_))
}

/// Relies on proc_macro2::Ident's `Display`: the identifier's text.
#[verifier::external_body]
fn ident_text(ident: &syn::Ident) -> String {
    ident.to_string()
}

/// Relies on quote::ToTokens for syn::Type: the canonical token text of a type.
#[verifier::external_body]
fn type_text(ty: &syn::Type) -> String {
    ty.to_token_stream().to_string()
}

/// Relies on quote::ToTokens for syn::Pat: the canonical token text of a pattern.
#[verifier::external_body]
fn pat_text(pat: &syn::Pat) -> String {
    pat.to_token_stream().to_string()
}

/// Relies on syn::Fields: borrows the fields of a unit, tuple-like or named layout.
#[verifier::external_body]
fn split_fields(fields: &syn::Fields) -> FieldsParts<'_> {
    match fields {
        syn::Fields::Unit => FieldsParts::Unit,
        syn::Fields::Unnamed(u) => FieldsParts::Unnamed(u.unnamed.iter().collect()),
        syn::Fields::Named(n) => FieldsParts::Named(n.named.iter().collect()),
    }
}

/// Relies on syn::Field: borrows its visibility, name and type.
#[verifier::external_body]
fn split_field(field: &syn::Field) -> (&syn::Visibility, Option<&syn::Ident>, &syn::Type) {
    (&field.vis, field.ident.as_ref(), &field.ty)
}

/// Relies on syn::Variant: borrows its name and fields.
#[verifier::external_body]
fn split_variant(variant: &syn::Variant) -> (&syn::Ident, &syn::Fields) {
    (&variant.ident, &variant.fields)
}

/// Relies on syn::Signature: its modifiers, name, parameters and return type.
#[verifier::external_body]
fn split_signature(sig: &syn::Signature) -> SignatureParts<'_> {
    SignatureParts {
        is_const: sig.constness.is_some(),
        is_async: sig.asyncness.is_some(),
        is_unsafe: sig.unsafety.is_some(),
        ident: &sig.ident,
        inputs: sig.inputs.iter().collect(),
        output: match &sig.output {
            syn::ReturnType::Default => None,
            syn::ReturnType::Type(_, t) => Some(&**t),
        },
    }
}

/// Relies on syn::FnArg: a receiver's reference and mutability markers and type,
/// or an ordinary parameter's pattern and type.
#[verifier::external_body]
fn split_arg(arg: &syn::FnArg) -> ArgParts<'_> {
    match arg {
        syn::FnArg::Receiver(r) => ArgParts::Receiver(
            r.reference.is_some(),
            r.mutability.is_some(),
            &r.ty,
        ),
        syn::FnArg::Typed(t) => ArgParts::Typed(&t.pat, &t.ty),
    }
}

/// A named field list in the checker's model.
fn lower_named(fields: &Vec<&syn::Field>) -> (r: Vec<NamedField>)
    ensures
        r@.len() == fields@.len(),
{
    let mut out: Vec<NamedField> = Vec::new();
    let mut i: usize = 0;
    while i < fields.len()
        invariant
            0 <= i <= fields@.len(),
            out@.len() == i,
        decreases fields@.len() - i,
    {
        let (vis, ident, ty) = split_field(fields[i]);
        let name = match ident {
            Some(id) => Some(ident_text(id)),
            None => None,
        };
        out.push(NamedField { public: is_public(vis), name, ty: type_text(ty) });
        i += 1;
    }
    out
}

/// A field layout in the checker's model.
fn lower_fields(fields: &syn::Fields) -> FieldShape {
    match split_fields(fields) {
        FieldsParts::Unit => FieldShape::Unit,
        FieldsParts::Unnamed(list) => {
            let mut tys: Vec<String> = Vec::new();
            let mut i: usize = 0;
            while i < list.len()
                invariant
                    0 <= i <= list@.len(),
                decreases list@.len() - i,
            {
                let (_, _, ty) = split_field(list[i]);
                tys.push(type_text(ty));
                i += 1;
            }
            FieldShape::Positional(tys)
        },
        FieldsParts::Named(list) => FieldShape::Named(lower_named(&list)),
    }
}

/// A function signature in the checker's model.
fn lower_signature(sig: &SignatureParts) -> (r: FunctionShape)
    ensures
        r.is_const == sig.is_const,
        r.is_async == sig.is_async,
        r.is_unsafe == sig.is_unsafe,
        r.params@.len() == sig.inputs@.len(),
        r.ret is None <==> sig.output is None,
{
    let mut params: Vec<Param> = Vec::new();
    let mut i: usize = 0;
    while i < sig.inputs.len()
        invariant
            0 <= i <= sig.inputs@.len(),
            params@.len() == i,
        decreases sig.inputs@.len() - i,
    {
        let p = match split_arg(sig.inputs[i]) {
            ArgParts::Receiver(by_ref, mutable, ty) => Param::Receiver {
                by_ref,
                mutable,
                ty: type_text(ty),
            },
            ArgParts::Typed(pat, ty) => Param::Typed { pat: pat_text(pat), ty: type_text(ty) },
        };
        params.push(p);
        i += 1;
    }
    let ret = match sig.output {
        Some(t) => Some(type_text(t)),
        None => None,
    };
    FunctionShape {
        is_const: sig.is_const,
        is_async: sig.is_async,
        is_unsafe: sig.is_unsafe,
        params,
        ret,
    }
}

/// A declaration item in the checker's model, with its visibility; `None` for
/// items that declare nothing the checker reads.
fn lower_declaration(parts: &ItemParts) -> (r: Option<(bool, Declaration)>)
    ensures
        parts is Other || parts is Module ==> r is None,
{
    match parts {
        ItemParts::Const(vis, ident, ty) => Some(
            (is_public(vis), Declaration::Constant { name: ident_text(ident), ty: type_text(ty) }),
        ),
        ItemParts::Static(vis, mutable, ident, ty) => Some(
            (
                is_public(vis),
                Declaration::Static { name: ident_text(ident), mutable: *mutable, ty: type_text(ty) },
            ),
        ),
        ItemParts::Union(vis, ident, fields) => Some(
            (
                is_public(vis),
                Declaration::Union {
                    name: ident_text(ident),
                    fields: FieldShape::Named(lower_named(fields)),
                },
            ),
        ),
        ItemParts::TypeAlias(vis, ident, ty) => Some(
            (is_public(vis), Declaration::TypeAlias { name: ident_text(ident), ty: type_text(ty) }),
        ),
        ItemParts::Struct(vis, ident, fields) => Some(
            (
                is_public(vis),
                Declaration::Struct { name: ident_text(ident), fields: lower_fields(fields) },
            ),
        ),
        ItemParts::Enum(vis, ident, variants) => {
            let mut vs: Vec<VariantShape> = Vec::new();
            let mut i: usize = 0;
            while i < variants.len()
                invariant
                    0 <= i <= variants@.len(),
                decreases variants@.len() - i,
            {
                let (vname, vfields) = split_variant(variants[i]);
                vs.push(VariantShape { name: ident_text(vname), fields: lower_fields(vfields) });
                i += 1;
            }
            Some((is_public(vis), Declaration::Enum { name: ident_text(ident), variants: vs }))
        },
        ItemParts::Function(vis, sig) => {
            let parts = split_signature(sig);
            let shape = lower_signature(&parts);
            Some(
                (is_public(vis), Declaration::Function { name: ident_text(parts.ident), shape }),
            )
        },
        // A named `macro_rules!` carries no visibility of its own: the checker
        // counts every named macro definition in the surface.
        ItemParts::Macro(ident) => match ident {
            Some(id) => Some((true, Declaration::MacroDefinition { name: ident_text(id) })),
            None => None,
        },
        ItemParts::Module(..) => None,
        ItemParts::Other => None,
    }
}

/// Why a source file could not be read into the checker's model.
#[derive(Debug)]
pub enum SyntaxError {
    /// syn rejected the text; holds its message.
    Parse(String),
    /// Inline modules nest deeper than the depth allowed.
    TooDeep,
}

/// Lowers the items of one source file; `depth` bounds how deep inline
/// modules may still nest.
pub fn lower_items(items: &Vec<syn::Item>, depth: usize) -> (r: Result<Vec<RawItem>, SyntaxError>)
    ensures
        r matches Ok(v) ==> v@.len() == items@.len(),
        r matches Err(e) ==> e is TooDeep,
    decreases depth,
{
    let mut out: Vec<RawItem> = Vec::new();
    let mut i: usize = 0;
    while i < items.len()
        invariant
            0 <= i <= items@.len(),
            out@.len() == i,
        decreases items@.len() - i,
    {
        let mut parts = split_data_item(&items[i]);
        if matches!(parts, ItemParts::Other) {
            parts = split_code_item(&items[i]);
        }
        let raw = match parts {
            ItemParts::Module(vis, ident, content) => {
                let inner = match content {
                    Some(c) => {
                        if depth == 0 {
                            return Err(SyntaxError::TooDeep);
                        }
                        Some(lower_items(c, depth - 1)?)
                    },
                    None => None,
                };
                RawItem::Module { public: is_public(vis), name: ident_text(ident), content: inner }
            },
            _ => match lower_declaration(&parts) {
                Some((public, decl)) => RawItem::Declared { public, decl },
                None => RawItem::Other,
            },
        };
        out.push(raw);
        i += 1;
    }
    Ok(out)
}

/// Parses a source file and lowers its items; `depth` bounds how deep inline
/// modules may still nest.
pub fn parse_source(text: &str, depth: usize) -> (r: Result<Vec<RawItem>, SyntaxError>)
    ensures
        !accepted_source(text@) <==> r matches Err(SyntaxError::Parse(_)),
        accepted_source(text@) ==> (r is Ok || r matches Err(SyntaxError::TooDeep)),
{
    match parse_items(text) {
        Ok(items) => lower_items(&items, depth),
        Err(message) => Err(SyntaxError::Parse(message)),
    }
}

} // verus!
