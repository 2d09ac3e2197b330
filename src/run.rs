//! A comparison run: matches modules by path and declarations by identity key,
//! and collects every finding that is not a compatible verdict.
use vstd::prelude::*;
use crate::compat::{determine_compatibility, verdict_of};
use crate::model::{
    decl_name, path_view, surface, Declaration, Finding, ModuleInfo, Report, Verdict,
};
use crate::surface::{extract_types, targets};

verus! {

/// `j` is the first module of `mods` whose path is `path`.
pub open spec fn first_module(mods: Seq<ModuleInfo>, path: Seq<Seq<char>>, j: int) -> bool {
    0 <= j < mods.len() && path_view(mods[j].mod_path@) == path && forall|k: int|
        0 <= k < j ==> path_view(#[trigger] mods[k].mod_path@) != path
}

/// The index of the new module that an old module at `path` is compared with, or -1.
pub open spec fn module_index(mods: Seq<ModuleInfo>, path: Seq<Seq<char>>) -> int {
    if exists|j: int| first_module(mods, path, j) {
        choose|j: int| first_module(mods, path, j)
    } else {
        -1
    }
}

/// The finding for one old declaration at index `k`, if its verdict is not compatible.
pub open spec fn decl_finding(
    mi: int,
    k: int,
    d: Declaration,
    news: Seq<Declaration>,
    nm: int,
) -> Seq<Report> {
    match verdict_of(d, news) {
        Verdict::Compatible => Seq::empty(),
        Verdict::Missing => seq![Report { module: mi as usize, finding: Finding::Missing { old: k as usize } }],
        Verdict::Incompatible(j) => seq![
            Report {
                module: mi as usize,
                finding: Finding::Incompatible { old: k as usize, new_module: nm as usize, new: j },
            },
        ],
    }
}

/// The findings for the old surface `olds` of module `mi` against the new surface
/// `news` of module `nm`, in the order of `olds`.
pub open spec fn decl_reports(
    mi: int,
    olds: Seq<Declaration>,
    news: Seq<Declaration>,
    nm: int,
) -> Seq<Report>
    decreases olds.len(),
{
    if olds.len() == 0 {
        Seq::empty()
    } else {
        decl_reports(mi, olds.drop_last(), news, nm) + decl_finding(
            mi,
            olds.len() - 1,
            olds.last(),
            news,
            nm,
        )
    }
}

/// The findings for the old module `old` at index `mi`.
pub open spec fn module_reports(mi: int, old: ModuleInfo, new: Seq<ModuleInfo>) -> Seq<Report> {
    let nm = module_index(new, path_view(old.mod_path@));
    if nm < 0 {
        seq![Report { module: mi as usize, finding: Finding::ModuleMissing }]
    } else {
        decl_reports(mi, surface(old.items@), surface(new[nm].items@), nm)
    }
}

/// The findings of a run, module by module in the order of `old`.
pub open spec fn run_reports(old: Seq<ModuleInfo>, new: Seq<ModuleInfo>) -> Seq<Report>
    decreases old.len(),
{
    if old.len() == 0 {
        Seq::empty()
    } else {
        run_reports(old.drop_last(), new) + module_reports(old.len() - 1, old.last(), new)
    }
}

/// Whether two module paths are equal, segment by segment.
pub fn paths_eq(a: &Vec<String>, b: &Vec<String>) -> (r: bool)
    ensures
        r == (path_view(a@) == path_view(b@)),
{
    if a.len() != b.len() {
        assert(path_view(a@).len() != path_view(b@).len());
        return false;
    }
    let mut i: usize = 0;
    while i < a.len()
        invariant
            0 <= i <= a@.len(),
            a@.len() == b@.len(),
            forall|k: int| 0 <= k < i ==> #[trigger] a@[k]@ == b@[k]@,
        decreases a@.len() - i,
    {
        if !a[i].eq(&b[i]) {
            assert(path_view(a@)[i as int] != path_view(b@)[i as int]);
            return false;
        }
        i += 1;
    }
    assert(path_view(a@) =~= path_view(b@));
    true
}

proof fn lemma_first_module_unique(mods: Seq<ModuleInfo>, path: Seq<Seq<char>>, a: int, b: int)
    requires
        first_module(mods, path, a),
        first_module(mods, path, b),
    ensures
        a == b,
{
    if a < b {
        assert(path_view(mods[a].mod_path@) != path);
    } else if b < a {
        assert(path_view(mods[b].mod_path@) != path);
    }
}

/// The index of the new module with the path of `old`, if any.
fn find_module(new: &Vec<ModuleInfo>, path: &Vec<String>) -> (r: Option<usize>)
    ensures
        match r {
            Some(j) => j as int == module_index(new@, path_view(path@)),
            None => module_index(new@, path_view(path@)) == -1,
        },
{
    let mut j: usize = 0;
    while j < new.len()
        invariant
            0 <= j <= new@.len(),
            forall|k: int|
                0 <= k < j ==> path_view(#[trigger] new@[k].mod_path@) != path_view(path@),
        decreases new@.len() - j,
    {
        if paths_eq(&new[j].mod_path, path) {
            proof {
                assert(first_module(new@, path_view(path@), j as int));
                lemma_first_module_unique(
                    new@,
                    path_view(path@),
                    j as int,
                    choose|x: int| first_module(new@, path_view(path@), x),
                );
            }
            return Some(j);
        }
        j += 1;
    }
    None
}

/// Compares the old module tree with the new one. Every old module without a new
/// module of the same path yields `ModuleMissing`; every other old module yields,
/// in order, a finding for each old public declaration that is missing or
/// incompatible in the new module.
pub fn compare_modules(old: &Vec<ModuleInfo>, new: &Vec<ModuleInfo>) -> (r: Vec<Report>)
    ensures
        r@ == run_reports(old@, new@),
{
    let mut out: Vec<Report> = Vec::new();
    let mut i: usize = 0;
    while i < old.len()
        invariant
            0 <= i <= old@.len(),
            out@ == run_reports(old@.take(i as int), new@),
        decreases old@.len() - i,
    {
        proof {
            assert(old@.take(i as int + 1).drop_last() =~= old@.take(i as int));
        }
        let ghost before = out@;
        match find_module(new, &old[i].mod_path) {
            None => {
                out.push(Report { module: i, finding: Finding::ModuleMissing });
            },
            Some(nm) => {
                let olds = extract_types(&old[i].items);
                let news = extract_types(&new[nm].items);
                let ghost ov = targets(olds@);
                let ghost nv = targets(news@);
                let mut k: usize = 0;
                while k < olds.len()
                    invariant
                        0 <= k <= olds@.len(),
                        i < old@.len(),
                        nm < new@.len(),
                        ov == targets(olds@),
                        nv == targets(news@),
                        out@ == before + decl_reports(i as int, ov.take(k as int), nv, nm as int),
                    decreases olds@.len() - k,
                {
                    proof {
                        assert(ov.take(k as int + 1).drop_last() =~= ov.take(k as int));
                    }
                    let v = determine_compatibility(olds[k], &news);
                    match v {
                        Verdict::Compatible => {},
                        Verdict::Missing => {
                            out.push(Report { module: i, finding: Finding::Missing { old: k } });
                        },
                        Verdict::Incompatible(j) => {
                            out.push(
                                Report {
                                    module: i,
                                    finding: Finding::Incompatible { old: k, new_module: nm, new: j },
                                },
                            );
                        },
                    }
                    proof {
                        assert(ov.take(k as int + 1).last() == ov[k as int]);
                        assert(out@ =~= before + decl_reports(
                            i as int,
                            ov.take(k as int + 1),
                            nv,
                            nm as int,
                        ));
                    }
                    k += 1;
                }
                proof {
                    assert(ov.take(ov.len() as int) =~= ov);
                }
            },
        }
        proof {
            assert(old@.take(i as int + 1).last() == old@[i as int]);
            assert(out@ =~= run_reports(old@.take(i as int + 1), new@));
        }
        i += 1;
    }
    assert(old@.take(old@.len() as int) =~= old@);
    out
}

/// The word that names the kind of a declaration in a report.
pub open spec fn kind_word(d: Declaration) -> Seq<char> {
    match d {
        Declaration::Constant { .. } => "const"@,
        Declaration::Static { .. } => "static"@,
        Declaration::Union { .. } => "union"@,
        Declaration::TypeAlias { .. } => "type"@,
        Declaration::Struct { .. } => "struct"@,
        Declaration::Enum { .. } => "enum"@,
        Declaration::Function { .. } => "fn"@,
        Declaration::MacroDefinition { .. } => "macro"@,
    }
}

/// The kind word and the name of a declaration, as in `struct Point`.
pub fn show_name(d: &Declaration) -> (r: String)
    ensures
        r@ == kind_word(*d) + " "@ + decl_name(*d),
{
    let (word, name) = match d {
        Declaration::Constant { name, .. } => ("const", name),
        Declaration::Static { name, .. } => ("static", name),
        Declaration::Union { name, .. } => ("union", name),
        Declaration::TypeAlias { name, .. } => ("type", name),
        Declaration::Struct { name, .. } => ("struct", name),
        Declaration::Enum { name, .. } => ("enum", name),
        Declaration::Function { name, .. } => ("fn", name),
        Declaration::MacroDefinition { name } => ("macro", name),
    };
    let mut s = String::from_str(word);
    s.append(" ");
    s.append(name.as_str());
    s
}

} // verus!
