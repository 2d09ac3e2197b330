//! The data model shared by the resolver, the surface extractor and the
//! comparator: declarations in their normalized shape, the raw items a
//! source file holds, module trees and the findings of a comparison.
use vstd::prelude::*;

verus! {

/// One named field of a struct, a union or an enum variant.
#[derive(Clone, Debug, PartialEq, Eq)]
pub struct NamedField {
    pub public: bool,
    pub name: Option<String>,
    pub ty: String,
}

/// The layout of a struct, a union or an enum variant.
#[derive(Clone, Debug, PartialEq, Eq)]
pub enum FieldShape {
    Unit,
    Positional(Vec<String>),
    Named(Vec<NamedField>),
}

/// One variant of an enum.
#[derive(Clone, Debug, PartialEq, Eq)]
pub struct VariantShape {
    pub name: String,
    pub fields: FieldShape,
}

/// One parameter of a function signature.
#[derive(Clone, Debug, PartialEq, Eq)]
pub enum Param {
    Receiver { by_ref: bool, mutable: bool, ty: String },
    Typed { pat: String, ty: String },
}

/// A function signature; `ret` is `None` for the unit return type.
#[derive(Clone, Debug, PartialEq, Eq)]
pub struct FunctionShape {
    pub is_const: bool,
    pub is_async: bool,
    pub is_unsafe: bool,
    pub params: Vec<Param>,
    pub ret: Option<String>,
}

/// A declaration of the public surface, in its normalized shape.
#[derive(Clone, Debug, PartialEq, Eq)]
pub enum Declaration {
    Constant { name: String, ty: String },
    Static { name: String, mutable: bool, ty: String },
    Union { name: String, fields: FieldShape },
    TypeAlias { name: String, ty: String },
    Struct { name: String, fields: FieldShape },
    Enum { name: String, variants: Vec<VariantShape> },
    Function { name: String, shape: FunctionShape },
    MacroDefinition { name: String },
}

/// One item of a parsed source file, reduced to what the checker reads.
#[derive(Debug)]
pub enum RawItem {
    /// A declaration and whether its visibility is fully public.
    Declared { public: bool, decl: Declaration },
    /// A submodule; `content` holds the items of an inline module.
    Module { public: bool, name: String, content: Option<Vec<RawItem>> },
    /// Anything else (impls, uses, traits, ...).
    Other,
}

/// A module of a resolved tree: its path from the crate root and its items.
#[derive(Debug)]
pub struct ModuleInfo {
    pub mod_path: Vec<String>,
    pub items: Vec<RawItem>,
}

/// The outcome of comparing one old declaration with the new surface.
#[derive(PartialEq, Eq, Structural, Clone, Copy, Debug)]
pub enum Verdict {
    Compatible,
    /// Holds the index, in the new surface, of the declaration it was compared with.
    Incompatible(usize),
    Missing,
}

/// A finding of a run, for the old module at index `module`.
#[derive(PartialEq, Eq, Structural, Clone, Copy, Debug)]
pub enum Finding {
    ModuleMissing,
    /// The old declaration at index `old` of the old surface has no counterpart.
    Missing { old: usize },
    /// The old declaration at index `old` changed shape; its counterpart is at index
    /// `new` of the surface of the new module at index `new_module`.
    Incompatible { old: usize, new_module: usize, new: usize },
}

#[derive(PartialEq, Eq, Structural, Clone, Copy, Debug)]
pub struct Report {
    pub module: usize,
    pub finding: Finding,
}

/// The name of a declaration.
pub open spec fn decl_name(d: Declaration) -> Seq<char> {
    match d {
        Declaration::Constant { name, .. } => name@,
        Declaration::Static { name, .. } => name@,
        Declaration::Union { name, .. } => name@,
        Declaration::TypeAlias { name, .. } => name@,
        Declaration::Struct { name, .. } => name@,
        Declaration::Enum { name, .. } => name@,
        Declaration::Function { name, .. } => name@,
        Declaration::MacroDefinition { name } => name@,
    }
}

/// The kind of a declaration, as a number that is equal exactly for equal kinds.
pub open spec fn decl_kind(d: Declaration) -> int {
    match d {
        Declaration::Constant { .. } => 0,
        Declaration::Static { .. } => 1,
        Declaration::Union { .. } => 2,
        Declaration::TypeAlias { .. } => 3,
        Declaration::Struct { .. } => 4,
        Declaration::Enum { .. } => 5,
        Declaration::Function { .. } => 6,
        Declaration::MacroDefinition { .. } => 7,
    }
}

/// Two declarations have the same identity key: the same kind and the same name.
pub open spec fn same_key(a: Declaration, b: Declaration) -> bool {
    decl_kind(a) == decl_kind(b) && decl_name(a) == decl_name(b)
}

/// A module path as a sequence of segment texts.
pub open spec fn path_view(p: Seq<String>) -> Seq<Seq<char>> {
    p.map_values(|s: String| s@)
}

/// The declarations of the public surface that one raw item contributes.
pub open spec fn item_surface(item: RawItem) -> Seq<Declaration> {
    match item {
        RawItem::Declared { public, decl } => if public { seq![decl] } else { Seq::empty() },
        _ => Seq::empty(),
    }
}

/// The public surface of a module: its fully public declarations, in order.
pub open spec fn surface(items: Seq<RawItem>) -> Seq<Declaration>
    decreases items.len(),
{
    if items.len() == 0 {
        Seq::empty()
    } else {
        surface(items.drop_last()) + item_surface(items.last())
    }
}

/// No two named fields of a shape share a name.
pub open spec fn shape_wf(f: FieldShape) -> bool {
    match f {
        FieldShape::Named(fs) => forall|a: int, b: int|
            0 <= a < fs@.len() && 0 <= b < fs@.len() && a != b && fs@[a].name is Some
                && fs@[b].name is Some ==> fs@[a].name->Some_0@ != fs@[b].name->Some_0@,
        _ => true,
    }
}

/// A declaration is well formed when its field names and variant names are unique,
/// as a compiling crate guarantees.
pub open spec fn decl_wf(d: Declaration) -> bool {
    match d {
        Declaration::Union { fields, .. } => shape_wf(fields),
        Declaration::Struct { fields, .. } => shape_wf(fields),
        Declaration::Enum { variants, .. } => (forall|a: int, b: int|
            0 <= a < variants@.len() && 0 <= b < variants@.len() && a != b
                ==> variants@[a].name@ != variants@[b].name@) && (forall|a: int|
            0 <= a < variants@.len() ==> shape_wf(#[trigger] variants@[a].fields)),
        _ => true,
    }
}

} // verus!
