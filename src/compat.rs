//! The structural compatibility comparator: the per-kind rules that decide
//! whether an old declaration is still served by the new surface.
use vstd::prelude::*;
use crate::model::{
    decl_kind, decl_name, same_key, Declaration, FieldShape, FunctionShape, NamedField, Param,
    VariantShape, Verdict,
};
use crate::surface::targets;

verus! {

/// `f` is a named field called `name`.
pub open spec fn names_field(f: NamedField, name: Seq<char>) -> bool {
    f.name is Some && f.name->Some_0@ == name
}

/// `j` is the first field of `fs` called `name`.
pub open spec fn first_field(fs: Seq<NamedField>, name: Seq<char>, j: int) -> bool {
    0 <= j < fs.len() && names_field(fs[j], name) && forall|k: int|
        0 <= k < j ==> !names_field(#[trigger] fs[k], name)
}

/// The old field `o` still holds in the new fields `n`: a public named field must
/// have a counterpart of the same name and an equal type.
pub open spec fn field_kept(o: NamedField, n: Seq<NamedField>) -> bool {
    o.public && o.name is Some ==> exists|j: int|
        first_field(n, o.name->Some_0@, j) && n[j].ty@ == o.ty@
}

/// The compatibility rule on field shapes: the same layout kind; positional
/// shapes pairwise equal; named shapes keep every old public field.
pub open spec fn fields_compatible(old: FieldShape, new: FieldShape) -> bool {
    match old {
        FieldShape::Unit => new is Unit,
        FieldShape::Positional(o) => new is Positional && positional_eq(o@, new->Positional_0@),
        FieldShape::Named(o) => new is Named && forall|i: int|
            0 <= i < o@.len() ==> field_kept(#[trigger] o@[i], new->Named_0@),
    }
}

/// Two positional field lists have equal arity and pairwise equal types.
pub open spec fn positional_eq(o: Seq<String>, n: Seq<String>) -> bool {
    o.len() == n.len() && forall|i: int| 0 <= i < o.len() ==> #[trigger] o[i]@ == n[i]@
}

/// The index of the first field of `fs` called `name`, if any.
fn find_field(fs: &Vec<NamedField>, name: &String) -> (r: Option<usize>)
    ensures
        match r {
            Some(j) => first_field(fs@, name@, j as int),
            None => forall|k: int| 0 <= k < fs@.len() ==> !names_field(#[trigger] fs@[k], name@),
        },
{
    let mut i: usize = 0;
    while i < fs.len()
        invariant
            0 <= i <= fs@.len(),
            forall|k: int| 0 <= k < i ==> !names_field(#[trigger] fs@[k], name@),
        decreases fs@.len() - i,
    {
        match &fs[i].name {
            Some(n) => {
                if n.eq(name) {
                    return Some(i);
                }
            },
            None => {},
        }
        i += 1;
    }
    None
}

proof fn lemma_first_field_unique(fs: Seq<NamedField>, name: Seq<char>, a: int, b: int)
    requires
        first_field(fs, name, a),
        first_field(fs, name, b),
    ensures
        a == b,
{
    if a < b {
        assert(!names_field(fs[a], name));
    } else if b < a {
        assert(!names_field(fs[b], name));
    }
}

/// Whether the old field shape is still served by the new one.
pub fn fields_eq(old: &FieldShape, new: &FieldShape) -> (r: bool)
    ensures
        r == fields_compatible(*old, *new),
{
    match old {
        FieldShape::Unit => matches!(new, FieldShape::Unit),
        FieldShape::Positional(o) => {
            let n = match new {
                FieldShape::Positional(n) => n,
                _ => return false,
            };
            if o.len() != n.len() {
                return false;
            }
            let mut i: usize = 0;
            while i < o.len()
                invariant
                    0 <= i <= o@.len(),
                    o@.len() == n@.len(),
                    *old == FieldShape::Positional(*o),
                    *new == FieldShape::Positional(*n),
                    forall|k: int| 0 <= k < i ==> #[trigger] o@[k]@ == n@[k]@,
                decreases o@.len() - i,
            {
                if !o[i].eq(&n[i]) {
                    return false;
                }
                i += 1;
            }
            true
        },
        FieldShape::Named(o) => {
            let n = match new {
                FieldShape::Named(n) => n,
                _ => return false,
            };
            let mut i: usize = 0;
            while i < o.len()
                invariant
                    0 <= i <= o@.len(),
                    *old == FieldShape::Named(*o),
                    *new == FieldShape::Named(*n),
                    forall|k: int| 0 <= k < i ==> field_kept(#[trigger] o@[k], n@),
                decreases o@.len() - i,
            {
                let f = &o[i];
                if f.public {
                    match &f.name {
                        Some(name) => {
                            match find_field(n, name) {
                                Some(j) => {
                                    if !n[j].ty.eq(&f.ty) {
                                        proof {
                                            assert forall|j2: int|
                                                first_field(n@, name@, j2) implies !(n@[j2].ty@
                                                == f.ty@) by {
                                                lemma_first_field_unique(
                                                    n@,
                                                    name@,
                                                    j as int,
                                                    j2,
                                                );
                                            }
                                            assert(!field_kept(o@[i as int], n@));
                                            assert(old->Named_0 == *o);
                                            assert(new->Named_0@ == n@);
                                            assert(!field_kept(old->Named_0@[i as int], new->Named_0@));
                                        }
                                        return false;
                                    }
                                },
                                None => {
                                    assert(!field_kept(o@[i as int], n@));
                                    assert(old->Named_0 == *o);
                                    assert(new->Named_0@ == n@);
                                    assert(!field_kept(old->Named_0@[i as int], new->Named_0@));
                                    return false;
                                },
                            }
                        },
                        None => {},
                    }
                }
                i += 1;
            }
            true
        },
    }
}

/// `j` is the first variant of `vs` called `name`.
pub open spec fn first_variant(vs: Seq<VariantShape>, name: Seq<char>, j: int) -> bool {
    0 <= j < vs.len() && vs[j].name@ == name && forall|k: int|
        #![trigger vs[k]]
        0 <= k < j ==> vs[k].name@ != name
}

/// The old variant `o` still holds in the new variants `n`: a variant of the same
/// name exists there and its fields are compatible.
pub open spec fn variant_kept(o: VariantShape, n: Seq<VariantShape>) -> bool {
    exists|j: int| first_variant(n, o.name@, j) && fields_compatible(o.fields, n[j].fields)
}

/// The enum rule: every old variant is kept; added variants are tolerated.
pub open spec fn enum_compatible(o: Seq<VariantShape>, n: Seq<VariantShape>) -> bool {
    forall|i: int| 0 <= i < o.len() ==> variant_kept(#[trigger] o[i], n)
}

/// The rule on one parameter: receivers by reference, mutability and type;
/// ordinary parameters by binding pattern and type.
pub open spec fn param_compatible(o: Param, n: Param) -> bool {
    match o {
        Param::Receiver { by_ref: r1, mutable: m1, ty: t1 } => match n {
            Param::Receiver { by_ref: r2, mutable: m2, ty: t2 } => r1 == r2 && m1 == m2 && t1@
                == t2@,
            _ => false,
        },
        Param::Typed { pat: pat_a, ty: t1 } => match n {
            Param::Typed { pat: pat_b, ty: t2 } => pat_a@ == pat_b@ && t1@ == t2@,
            _ => false,
        },
    }
}

/// Return types are equal; `None` stands for the unit type.
pub open spec fn ret_compatible(o: Option<String>, n: Option<String>) -> bool {
    match o {
        None => n is None,
        Some(a) => n is Some && a@ == n->Some_0@,
    }
}

/// The function rule: equal modifiers, equal arity, pairwise compatible
/// parameters and equal return types.
pub open spec fn function_compatible(o: FunctionShape, n: FunctionShape) -> bool {
    &&& o.is_const == n.is_const
    &&& o.is_async == n.is_async
    &&& o.is_unsafe == n.is_unsafe
    &&& o.params@.len() == n.params@.len()
    &&& forall|i: int|
        0 <= i < o.params@.len() ==> param_compatible(#[trigger] o.params@[i], n.params@[i])
    &&& ret_compatible(o.ret, n.ret)
}

/// The per-kind rule for an old declaration and a new one of the same key.
pub open spec fn decl_compatible(o: Declaration, n: Declaration) -> bool {
    match o {
        Declaration::Constant { ty, .. } => match n {
            Declaration::Constant { ty: t2, .. } => ty@ == t2@,
            _ => false,
        },
        Declaration::Static { mutable, ty, .. } => match n {
            Declaration::Static { mutable: m2, ty: t2, .. } => ty@ == t2@ && mutable == m2,
            _ => false,
        },
        Declaration::Union { fields, .. } => match n {
            Declaration::Union { fields: f2, .. } => fields_compatible(fields, f2),
            _ => false,
        },
        Declaration::TypeAlias { ty, .. } => match n {
            Declaration::TypeAlias { ty: t2, .. } => ty@ == t2@,
            _ => false,
        },
        Declaration::Struct { fields, .. } => match n {
            Declaration::Struct { fields: f2, .. } => fields_compatible(fields, f2),
            _ => false,
        },
        Declaration::Enum { variants, .. } => match n {
            Declaration::Enum { variants: v2, .. } => enum_compatible(variants@, v2@),
            _ => false,
        },
        Declaration::Function { shape, .. } => match n {
            Declaration::Function { shape: s2, .. } => function_compatible(shape, s2),
            _ => false,
        },
        Declaration::MacroDefinition { .. } => n is MacroDefinition,
    }
}

/// `j` is the first declaration of `list` with the identity key of `d`.
pub open spec fn first_key(list: Seq<Declaration>, d: Declaration, j: int) -> bool {
    0 <= j < list.len() && same_key(list[j], d) && forall|k: int|
        0 <= k < j ==> !same_key(#[trigger] list[k], d)
}

/// The index of the declaration of `list` that `d` is matched with, or -1.
pub open spec fn key_index(list: Seq<Declaration>, d: Declaration) -> int {
    if exists|j: int| first_key(list, d, j) {
        choose|j: int| first_key(list, d, j)
    } else {
        -1
    }
}

/// The verdict on the old declaration `d` against the new surface `list`.
pub open spec fn verdict_of(d: Declaration, list: Seq<Declaration>) -> Verdict {
    let j = key_index(list, d);
    if j < 0 {
        Verdict::Missing
    } else if decl_compatible(d, list[j]) {
        Verdict::Compatible
    } else {
        Verdict::Incompatible(j as usize)
    }
}

pub proof fn lemma_first_key_unique(list: Seq<Declaration>, d: Declaration, a: int, b: int)
    requires
        first_key(list, d, a),
        first_key(list, d, b),
    ensures
        a == b,
{
    if a < b {
        assert(!same_key(list[a], d));
    } else if b < a {
        assert(!same_key(list[b], d));
    }
}

fn find_variant(vs: &Vec<VariantShape>, name: &String) -> (r: Option<usize>)
    ensures
        match r {
            Some(j) => first_variant(vs@, name@, j as int),
            None => forall|k: int| #![trigger vs@[k]] 0 <= k < vs@.len() ==> vs@[k].name@ != name@,
        },
{
    let mut i: usize = 0;
    while i < vs.len()
        invariant
            0 <= i <= vs@.len(),
            forall|k: int| #![trigger vs@[k]] 0 <= k < i ==> vs@[k].name@ != name@,
        decreases vs@.len() - i,
    {
        if vs[i].name.eq(name) {
            return Some(i);
        }
        i += 1;
    }
    None
}

proof fn lemma_first_variant_unique(vs: Seq<VariantShape>, name: Seq<char>, a: int, b: int)
    requires
        first_variant(vs, name, a),
        first_variant(vs, name, b),
    ensures
        a == b,
{
    if a < b {
        assert(vs[a].name@ != name);
    } else if b < a {
        assert(vs[b].name@ != name);
    }
}

/// Whether every old variant is still served by the new variants.
fn variants_eq(o: &Vec<VariantShape>, n: &Vec<VariantShape>) -> (r: bool)
    ensures
        r == enum_compatible(o@, n@),
{
    let mut i: usize = 0;
    while i < o.len()
        invariant
            0 <= i <= o@.len(),
            forall|k: int| 0 <= k < i ==> variant_kept(#[trigger] o@[k], n@),
        decreases o@.len() - i,
    {
        match find_variant(n, &o[i].name) {
            Some(j) => {
                if !fields_eq(&o[i].fields, &n[j].fields) {
                    proof {
                        assert forall|j2: int| first_variant(n@, o@[i as int].name@, j2) implies !fields_compatible(
                            o@[i as int].fields,
                            n@[j2].fields,
                        ) by {
                            lemma_first_variant_unique(n@, o@[i as int].name@, j as int, j2);
                        }
                        assert(!variant_kept(o@[i as int], n@));
                    }
                    return false;
                }
            },
            None => {
                assert(!variant_kept(o@[i as int], n@));
                return false;
            },
        }
        i += 1;
    }
    true
}

fn param_eq(o: &Param, n: &Param) -> (r: bool)
    ensures
        r == param_compatible(*o, *n),
{
    match o {
        Param::Receiver { by_ref: r1, mutable: m1, ty: t1 } => match n {
            Param::Receiver { by_ref: r2, mutable: m2, ty: t2 } => *r1 == *r2 && *m1 == *m2
                && t1.eq(t2),
            _ => false,
        },
        Param::Typed { pat: pat_a, ty: t1 } => match n {
            Param::Typed { pat: pat_b, ty: t2 } => pat_a.eq(pat_b) && t1.eq(t2),
            _ => false,
        },
    }
}

fn ret_eq(o: &Option<String>, n: &Option<String>) -> (r: bool)
    ensures
        r == ret_compatible(*o, *n),
{
    match o {
        None => n.is_none(),
        Some(a) => match n {
            Some(b) => a.eq(b),
            None => false,
        },
    }
}

/// Whether the old signature is still served by the new one.
fn function_eq(o: &FunctionShape, n: &FunctionShape) -> (r: bool)
    ensures
        r == function_compatible(*o, *n),
{
    if o.is_const != n.is_const || o.is_async != n.is_async || o.is_unsafe != n.is_unsafe {
        return false;
    }
    if o.params.len() != n.params.len() || !ret_eq(&o.ret, &n.ret) {
        return false;
    }
    let mut i: usize = 0;
    while i < o.params.len()
        invariant
            0 <= i <= o.params@.len(),
            o.params@.len() == n.params@.len(),
            forall|k: int| 0 <= k < i ==> param_compatible(#[trigger] o.params@[k], n.params@[k]),
        decreases o.params@.len() - i,
    {
        if !param_eq(&o.params[i], &n.params[i]) {
            return false;
        }
        i += 1;
    }
    true
}

/// The per-kind rule for two declarations of the same key.
pub fn decl_eq(o: &Declaration, n: &Declaration) -> (r: bool)
    ensures
        r == decl_compatible(*o, *n),
{
    match o {
        Declaration::Constant { ty, .. } => match n {
            Declaration::Constant { ty: t2, .. } => ty.eq(t2),
            _ => false,
        },
        Declaration::Static { mutable, ty, .. } => match n {
            Declaration::Static { mutable: m2, ty: t2, .. } => ty.eq(t2) && *mutable == *m2,
            _ => false,
        },
        Declaration::Union { fields, .. } => match n {
            Declaration::Union { fields: f2, .. } => fields_eq(fields, f2),
            _ => false,
        },
        Declaration::TypeAlias { ty, .. } => match n {
            Declaration::TypeAlias { ty: t2, .. } => ty.eq(t2),
            _ => false,
        },
        Declaration::Struct { fields, .. } => match n {
            Declaration::Struct { fields: f2, .. } => fields_eq(fields, f2),
            _ => false,
        },
        Declaration::Enum { variants, .. } => match n {
            Declaration::Enum { variants: v2, .. } => variants_eq(variants, v2),
            _ => false,
        },
        Declaration::Function { shape, .. } => match n {
            Declaration::Function { shape: s2, .. } => function_eq(shape, s2),
            _ => false,
        },
        Declaration::MacroDefinition { .. } => matches!(n, Declaration::MacroDefinition { .. }),
    }
}

/// The kind of a declaration as a number.
fn kind_code(d: &Declaration) -> (r: u8)
    ensures
        r as int == decl_kind(*d),
{
    match d {
        Declaration::Constant { .. } => 0,
        Declaration::Static { .. } => 1,
        Declaration::Union { .. } => 2,
        Declaration::TypeAlias { .. } => 3,
        Declaration::Struct { .. } => 4,
        Declaration::Enum { .. } => 5,
        Declaration::Function { .. } => 6,
        Declaration::MacroDefinition { .. } => 7,
    }
}

/// The name of a declaration.
pub fn name_of(d: &Declaration) -> (r: &String)
    ensures
        r@ == decl_name(*d),
{
    match d {
        Declaration::Constant { name, .. } => name,
        Declaration::Static { name, .. } => name,
        Declaration::Union { name, .. } => name,
        Declaration::TypeAlias { name, .. } => name,
        Declaration::Struct { name, .. } => name,
        Declaration::Enum { name, .. } => name,
        Declaration::Function { name, .. } => name,
        Declaration::MacroDefinition { name } => name,
    }
}

/// Whether two declarations share their identity key.
pub fn key_eq(a: &Declaration, b: &Declaration) -> (r: bool)
    ensures
        r == same_key(*a, *b),
{
    kind_code(a) == kind_code(b) && name_of(a).eq(name_of(b))
}

/// Looks up the old declaration in the new surface by identity key and applies
/// the rule of its kind.
pub fn determine_compatibility(old_data: &Declaration, new_data_list: &Vec<&Declaration>) -> (r:
    Verdict)
    ensures
        r == verdict_of(*old_data, targets(new_data_list@)),
{
    let ghost list = targets(new_data_list@);
    let mut i: usize = 0;
    while i < new_data_list.len()
        invariant
            0 <= i <= new_data_list@.len(),
            list == targets(new_data_list@),
            forall|k: int| 0 <= k < i ==> !same_key(#[trigger] list[k], *old_data),
        decreases new_data_list@.len() - i,
    {
        let new_data: &Declaration = new_data_list[i];
        if key_eq(new_data, old_data) {
            proof {
                assert(first_key(list, *old_data, i as int));
                lemma_first_key_unique(
                    list,
                    *old_data,
                    i as int,
                    choose|j: int| first_key(list, *old_data, j),
                );
            }
            if decl_eq(old_data, new_data) {
                return Verdict::Compatible;
            } else {
                return Verdict::Incompatible(i);
            }
        }
        i += 1;
    }
    Verdict::Missing
}

} // verus!
