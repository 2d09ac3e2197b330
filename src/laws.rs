//! Properties of the comparator that hold for all inputs.
use vstd::prelude::*;
use crate::compat::{
    decl_compatible, enum_compatible, field_kept, fields_compatible, first_field, first_key,
    first_variant, function_compatible, key_index, lemma_first_key_unique, names_field,
    param_compatible, variant_kept, verdict_of,
};
use crate::model::{
    decl_wf, path_view, same_key, shape_wf, Declaration, FieldShape, Finding, ModuleInfo,
    Report, Verdict,
};
use crate::run::{first_module, module_index, module_reports, run_reports};

verus! {

/// A field shape with unique field names is compatible with itself.
pub proof fn lemma_fields_reflexive(f: FieldShape)
    requires
        shape_wf(f),
    ensures
        fields_compatible(f, f),
{
    match f {
        FieldShape::Named(o) => {
            assert forall|i: int| 0 <= i < o@.len() implies field_kept(#[trigger] o@[i], o@) by {
                if o@[i].public && o@[i].name is Some {
                    let name = o@[i].name->Some_0@;
                    assert forall|k: int| 0 <= k < i implies !names_field(#[trigger] o@[k], name) by {
                        assert(k != i);
                    }
                    assert(first_field(o@, name, i));
                }
            }
        },
        _ => {},
    }
}

/// A declaration with unique field and variant names is compatible with itself.
pub proof fn lemma_decl_reflexive(d: Declaration)
    requires
        decl_wf(d),
    ensures
        decl_compatible(d, d),
{
    match d {
        Declaration::Union { fields, .. } => lemma_fields_reflexive(fields),
        Declaration::Struct { fields, .. } => lemma_fields_reflexive(fields),
        Declaration::Enum { variants, .. } => {
            let v = variants@;
            assert forall|i: int| 0 <= i < v.len() implies variant_kept(#[trigger] v[i], v) by {
                assert forall|k: int| #![trigger v[k]] 0 <= k < i implies v[k].name@ != v[i].name@ by {
                    assert(k != i);
                }
                assert(first_variant(v, v[i].name@, i));
                lemma_fields_reflexive(v[i].fields);
            }
            assert(enum_compatible(v, v));
        },
        Declaration::Function { shape, .. } => {
            assert forall|i: int| 0 <= i < shape.params@.len() implies param_compatible(
                #[trigger] shape.params@[i],
                shape.params@[i],
            ) by {}
            assert(function_compatible(shape, shape));
        },
        _ => {},
    }
}

/// A declaration that appears unchanged in the new surface, which holds no other
/// declaration of its identity key, is compatible.
pub proof fn lemma_unchanged_is_compatible(d: Declaration, news: Seq<Declaration>, j: int)
    requires
        decl_wf(d),
        0 <= j < news.len(),
        news[j] == d,
        forall|k: int| 0 <= k < news.len() && k != j ==> !same_key(#[trigger] news[k], d),
    ensures
        verdict_of(d, news) == Verdict::Compatible,
{
    assert(first_key(news, d, j));
    lemma_first_key_unique(news, d, j, key_index(news, d));
    lemma_decl_reflexive(d);
}

/// Running the comparator twice over the same two trees yields the same findings
/// in the same order.
pub proof fn lemma_run_idempotent(
    old: Seq<ModuleInfo>,
    new: Seq<ModuleInfo>,
    first: Seq<Report>,
    second: Seq<Report>,
)
    requires
        first == run_reports(old, new),
        second == run_reports(old, new),
    ensures
        first == second,
{
}

/// An old module whose path no new module has yields exactly one
/// `ModuleMissing` finding: its declarations are never compared with those of
/// a module at another path.
pub proof fn lemma_unmatched_module(mi: int, old: ModuleInfo, new: Seq<ModuleInfo>)
    requires
        forall|j: int|
            0 <= j < new.len() ==> path_view(#[trigger] new[j].mod_path@) != path_view(
                old.mod_path@,
            ),
    ensures
        module_reports(mi, old, new) == seq![Report { module: mi as usize, finding: Finding::ModuleMissing }],
{
    assert(module_index(new, path_view(old.mod_path@)) == -1);
}

/// New modules at paths that no old module has never change the findings: a
/// declaration is only compared within the module of the identical path.
pub proof fn lemma_other_modules_irrelevant(
    old: Seq<ModuleInfo>,
    new: Seq<ModuleInfo>,
    extra: Seq<ModuleInfo>,
)
    requires
        forall|e: int, o: int|
            0 <= e < extra.len() && 0 <= o < old.len() ==> path_view(#[trigger] extra[e].mod_path@)
                != path_view(#[trigger] old[o].mod_path@),
    ensures
        run_reports(old, new + extra) == run_reports(old, new),
    decreases old.len(),
{
    if old.len() > 0 {
        lemma_other_modules_irrelevant(old.drop_last(), new, extra);
        let o = old.last();
        let p = path_view(o.mod_path@);
        let all = new + extra;
        let nm = module_index(new, p);
        if nm >= 0 {
            assert(first_module(new, p, nm));
            assert(first_module(all, p, nm));
            assert(module_index(all, p) == nm) by {
                let x = choose|x: int| first_module(all, p, x);
                if x < nm {
                    assert(path_view(all[x].mod_path@) != p);
                } else if nm < x {
                    assert(path_view(all[nm].mod_path@) != p);
                }
            }
            assert(all[nm] == new[nm]);
        } else {
            assert forall|j: int| !first_module(all, p, j) by {
                if 0 <= j < all.len() && path_view(all[j].mod_path@) == p {
                    if j < new.len() {
                        assert(first_module(new, p, j) || exists|k: int|
                            0 <= k < j && path_view(#[trigger] new[k].mod_path@) == p);
                        if first_module(new, p, j) {
                        } else {
                            let k = choose|k: int|
                                0 <= k < j && path_view(#[trigger] new[k].mod_path@) == p;
                            lemma_some_first_module(new, p, k);
                        }
                    } else {
                        assert(all[j] == extra[j - new.len()]);
                        assert(old[old.len() - 1] == o);
                    }
                }
            }
        }
    }
}

/// Where some module has `path`, a first one has it.
proof fn lemma_some_first_module(mods: Seq<ModuleInfo>, path: Seq<Seq<char>>, k: int)
    requires
        0 <= k < mods.len(),
        path_view(mods[k].mod_path@) == path,
    ensures
        exists|j: int| first_module(mods, path, j),
    decreases k,
{
    if exists|i: int| 0 <= i < k && path_view(#[trigger] mods[i].mod_path@) == path {
        let i = choose|i: int| 0 <= i < k && path_view(#[trigger] mods[i].mod_path@) == path;
        lemma_some_first_module(mods, path, i);
    } else {
        assert(first_module(mods, path, k));
    }
}

} // verus!
