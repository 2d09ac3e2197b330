//! The module-tree resolver: follows the public submodules of a crate root,
//! reading out-of-line modules through a `SourceProvider`.
use vstd::prelude::*;
use crate::model::{path_view, ModuleInfo, RawItem};
use crate::syntax::{accepted_source, parse_source, SyntaxError};

verus! {

/// How deep modules may nest below the crate root. It also ends the walk of a
/// tree whose files refer to each other in a cycle (through links, say).
pub const MAX_MODULE_DEPTH: usize = 1024;

/// Where the source files of a crate are read from: a directory, or a tree of
/// the version-control history. `file` holds path segments relative to the
/// directory of the crate's entry file.
pub trait SourceProvider {
    /// The text of `file`; `Ok(None)` where no such file exists, `Err` with a
    /// message where reading it failed.
    fn fetch(&self, file: &Vec<String>) -> Result<Option<String>, String>;
}

/// Why a module tree could not be resolved.
#[derive(Debug)]
pub enum ResolveError {
    /// Neither file of an out-of-line module exists; holds both files tried.
    NotFound { out_of_line: Vec<String>, dir_entry: Vec<String> },
    /// Reading a file failed.
    Read(String),
    /// The source of the module at `path` does not parse.
    Parse { path: Vec<String>, message: String },
    /// Modules nest deeper than `MAX_MODULE_DEPTH`.
    TooDeep,
}

/// The out-of-line file of the module at `p`: `a/b.rs` for the path `a, b`.
pub open spec fn out_of_line_file(p: Seq<Seq<char>>) -> Seq<Seq<char>> {
    p.drop_last().push(p.last() + ".rs"@)
}

/// The directory-entry file of the module at `p`: `a/b/mod.rs` for the path `a, b`.
pub open spec fn dir_entry_file(p: Seq<Seq<char>>) -> Seq<Seq<char>> {
    p.push("mod.rs"@)
}

/// A copy of a module path.
pub fn copy_path(p: &Vec<String>) -> (r: Vec<String>)
    ensures
        r@ == p@,
{
    let mut r: Vec<String> = Vec::new();
    let mut i: usize = 0;
    while i < p.len()
        invariant
            0 <= i <= p@.len(),
            r@ == p@.take(i as int),
        decreases p@.len() - i,
    {
        r.push(p[i].clone());
        proof {
            assert(r@ =~= p@.take(i as int + 1));
        }
        i += 1;
    }
    assert(r@ =~= p@);
    r
}

/// The two files that may hold the module at `path`, the out-of-line file first.
pub fn module_file_candidates(path: &Vec<String>) -> (r: (Vec<String>, Vec<String>))
    requires
        path@.len() >= 1,
    ensures
        path_view(r.0@) == out_of_line_file(path_view(path@)),
        path_view(r.1@) == dir_entry_file(path_view(path@)),
{
    let n = path.len();
    let mut first: Vec<String> = Vec::new();
    let mut i: usize = 0;
    while i + 1 < n
        invariant
            n == path@.len(),
            n >= 1,
            0 <= i <= n - 1,
            first@ == path@.take(i as int),
        decreases n - i,
    {
        first.push(path[i].clone());
        proof {
            assert(first@ =~= path@.take(i as int + 1));
        }
        i += 1;
    }
    let last = path[n - 1].clone().concat(".rs");
    first.push(last);
    let mut second = copy_path(path);
    second.push(String::from_str("mod.rs"));
    proof {
        assert(path_view(first@) =~= out_of_line_file(path_view(path@)));
        assert(path_view(second@) =~= dir_entry_file(path_view(path@)));
    }
    (first, second)
}

/// Picks the source of a module from what its two candidate files hold: the
/// out-of-line file where it exists, else the directory-entry file, else
/// `NotFound` naming both.
pub fn choose_module_source(
    out_of_line: Option<String>,
    dir_entry: Option<String>,
    tried: (Vec<String>, Vec<String>),
) -> (r: Result<String, ResolveError>)
    ensures
        out_of_line is Some ==> r == Ok::<String, ResolveError>(out_of_line->Some_0),
        out_of_line is None && dir_entry is Some ==> r == Ok::<String, ResolveError>(
            dir_entry->Some_0,
        ),
        out_of_line is None && dir_entry is None ==> r == Err::<String, ResolveError>(
            ResolveError::NotFound { out_of_line: tried.0, dir_entry: tried.1 },
        ),
{
    match out_of_line {
        Some(text) => Ok(text),
        None => match dir_entry {
            Some(text) => Ok(text),
            None => Err(ResolveError::NotFound { out_of_line: tried.0, dir_entry: tried.1 }),
        },
    }
}

/// Decides the source of a module from what fetching its files gave: `first`
/// for the out-of-line file and `second` for the directory-entry file, which is
/// fetched only where the out-of-line file does not exist. A failed fetch ends
/// the lookup.
pub fn settle_source(
    first: Result<Option<String>, String>,
    second: Option<Result<Option<String>, String>>,
    tried: (Vec<String>, Vec<String>),
) -> (r: Result<String, ResolveError>)
    requires
        (first == Ok::<Option<String>, String>(None)) == (second is Some),
    ensures
        first matches Err(m) ==> r == Err::<String, ResolveError>(ResolveError::Read(m)),
        first matches Ok(Some(t)) ==> r == Ok::<String, ResolveError>(t),
        second matches Some(Err(m)) ==> r == Err::<String, ResolveError>(ResolveError::Read(m)),
        second matches Some(Ok(Some(t))) ==> r == Ok::<String, ResolveError>(t),
        second matches Some(Ok(None)) ==> r == Err::<String, ResolveError>(
            ResolveError::NotFound { out_of_line: tried.0, dir_entry: tried.1 },
        ),
{
    match first {
        Err(message) => Err(ResolveError::Read(message)),
        Ok(Some(text)) => choose_module_source(Some(text), None, tried),
        Ok(None) => match second {
            Some(Err(message)) => Err(ResolveError::Read(message)),
            Some(Ok(found)) => choose_module_source(None, found, tried),
            None => Err(ResolveError::NotFound { out_of_line: tried.0, dir_entry: tried.1 }),
        },
    }
}

/// Reads the source of the module at `path`: the out-of-line file first, the
/// directory-entry file only where the first does not exist.
pub fn read_module_source<P: SourceProvider>(provider: &P, path: &Vec<String>) -> (r: Result<
    String,
    ResolveError,
>)
    requires
        path@.len() >= 1,
    ensures
        r matches Err(ResolveError::NotFound { out_of_line, dir_entry }) ==> path_view(
            out_of_line@,
        ) == out_of_line_file(path_view(path@)) && path_view(dir_entry@) == dir_entry_file(
            path_view(path@),
        ),
{
    let tried = module_file_candidates(path);
    let first = provider.fetch(&tried.0);
    let second = if matches!(first, Ok(None)) {
        Some(provider.fetch(&tried.1))
    } else {
        None
    };
    settle_source(first, second, tried)
}

/// The items of the out-of-line module at `path`, from the outcome of reading
/// its source: a failed read stays the error, a text that syn does not accept
/// is a `Parse` error for `path`.
pub fn parse_module(path: Vec<String>, source: Result<String, ResolveError>) -> (r: Result<
    Vec<RawItem>,
    ResolveError,
>)
    requires
        path@.len() <= MAX_MODULE_DEPTH,
    ensures
        source is Err ==> r == Err::<Vec<RawItem>, ResolveError>(source->Err_0),
        source matches Ok(t) && !accepted_source(t@) ==> (r matches Err(
            ResolveError::Parse { path: q, .. },
        ) && q == path),
        source matches Ok(t) && accepted_source(t@) ==> (r is Ok || r matches Err(
            ResolveError::TooDeep,
        )),
{
    let text = match source {
        Ok(text) => text,
        Err(e) => return Err(e),
    };
    match parse_source(text.as_str(), MAX_MODULE_DEPTH - path.len()) {
        Ok(parsed) => Ok(parsed),
        Err(SyntaxError::Parse(message)) => Err(ResolveError::Parse { path, message }),
        Err(SyntaxError::TooDeep) => Err(ResolveError::TooDeep),
    }
}

/// A module's own copy of one of its items: a public submodule keeps its
/// declaration, while its inline content moves to a module of its own.
pub open spec fn detach(item: RawItem) -> RawItem {
    match item {
        RawItem::Module { public, name, content } => if public {
            RawItem::Module { public, name, content: None }
        } else {
            item
        },
        _ => item,
    }
}

/// The items a resolved module keeps.
pub open spec fn own_items(items: Seq<RawItem>) -> Seq<RawItem> {
    items.map_values(|x: RawItem| detach(x))
}

/// The public submodule that one item declares, with its inline content if any.
pub open spec fn submodule_of(item: RawItem) -> Seq<(String, Option<Vec<RawItem>>)> {
    match item {
        RawItem::Module { public, name, content } => if public {
            seq![(name, content)]
        } else {
            Seq::empty()
        },
        _ => Seq::empty(),
    }
}

/// The public submodules that `items` declare, in order; private ones are
/// never followed, as they cannot reach external callers.
pub open spec fn submodules(items: Seq<RawItem>) -> Seq<(String, Option<Vec<RawItem>>)>
    decreases items.len(),
{
    if items.len() == 0 {
        Seq::empty()
    } else {
        submodules(items.drop_last()) + submodule_of(items.last())
    }
}

/// `a` is a leading part of `b`.
pub open spec fn path_prefix(a: Seq<Seq<char>>, b: Seq<Seq<char>>) -> bool {
    a.len() <= b.len() && forall|i: int| 0 <= i < a.len() ==> #[trigger] b[i] == a[i]
}

/// Each submodule in `subs` has a module in `mods` after index `from`, at the
/// path `base` extended by the submodule's name.
pub open spec fn covers(
    mods: Seq<ModuleInfo>,
    from: int,
    base: Seq<Seq<char>>,
    subs: Seq<(String, Option<Vec<RawItem>>)>,
) -> bool {
    forall|c: int|
        #![trigger subs[c]]
        0 <= c < subs.len() ==> exists|k: int|
            from < k < mods.len() && path_view(#[trigger] mods[k].mod_path@) == base.push(
                subs[c].0@,
            )
}

/// Splits the items of a module into its own items and its public submodules.
pub fn get_children_file_name(items: Vec<RawItem>) -> (r: (
    Vec<RawItem>,
    Vec<(String, Option<Vec<RawItem>>)>,
))
    ensures
        r.0@ == own_items(items@),
        r.1@ == submodules(items@),
{
    let ghost orig = items@;
    let mut rest = items;
    let mut own: Vec<RawItem> = Vec::new();
    let mut subs: Vec<(String, Option<Vec<RawItem>>)> = Vec::new();
    let ghost mut i: int = 0;
    while rest.len() > 0
        invariant
            0 <= i <= orig.len(),
            rest@ == orig.subrange(i, orig.len() as int),
            own@ == own_items(orig.take(i)),
            subs@ == submodules(orig.take(i)),
        decreases rest@.len(),
    {
        let item = rest.remove(0);
        proof {
            assert(item == orig[i]);
            assert(orig.take(i + 1).drop_last() =~= orig.take(i));
            assert(orig.take(i + 1).last() == orig[i]);
        }
        match item {
            RawItem::Module { public, name, content } => {
                if public {
                    let kept = name.clone();
                    subs.push((name, content));
                    own.push(RawItem::Module { public, name: kept, content: None });
                } else {
                    own.push(RawItem::Module { public, name, content });
                }
            },
            other => {
                own.push(other);
            },
        }
        proof {
            assert(own@ =~= own_items(orig.take(i + 1)));
            assert(subs@ =~= submodules(orig.take(i + 1)));
            i = i + 1;
            assert(rest@ =~= orig.subrange(i, orig.len() as int));
        }
    }
    proof {
        assert(orig.take(i) =~= orig);
    }
    (own, subs)
}

/// A resolved module as plain values: its path and its items.
pub open spec fn module_view(m: ModuleInfo) -> (Seq<Seq<char>>, Seq<RawItem>) {
    (path_view(m.mod_path@), m.items@)
}

/// A sequence of resolved modules as plain values.
pub open spec fn tree_view(mods: Seq<ModuleInfo>) -> Seq<(Seq<Seq<char>>, Seq<RawItem>)> {
    mods.map_values(|m: ModuleInfo| module_view(m))
}

/// The resolved tree of the module at `path` holding `items`, where every public
/// submodule below it is inline: the module with its own items, then the tree of
/// each public submodule in order; private submodules are left out. `None` where
/// some public submodule below is out-of-line, or modules nest deeper than
/// `MAX_MODULE_DEPTH`.
pub open spec fn inline_tree(path: Seq<Seq<char>>, items: Seq<RawItem>) -> Option<
    Seq<(Seq<Seq<char>>, Seq<RawItem>)>,
>
    decreases MAX_MODULE_DEPTH - path.len(), submodules(items).len() + 1,
{
    if path.len() > MAX_MODULE_DEPTH {
        None
    } else {
        match inline_children(path, submodules(items)) {
            Some(t) => Some(seq![(path, own_items(items))] + t),
            None => None,
        }
    }
}

/// The trees of the inline submodules `subs` of the module at `path`, in order.
pub open spec fn inline_children(
    path: Seq<Seq<char>>,
    subs: Seq<(String, Option<Vec<RawItem>>)>,
) -> Option<Seq<(Seq<Seq<char>>, Seq<RawItem>)>>
    decreases MAX_MODULE_DEPTH - path.len(), subs.len(),
{
    if subs.len() == 0 {
        Some(Seq::empty())
    } else if path.len() >= MAX_MODULE_DEPTH {
        None
    } else {
        match inline_children(path, subs.drop_last()) {
            Some(prev) => match subs.last().1 {
                Some(content) => match inline_tree(path.push(subs.last().0@), content@) {
                    Some(sub) => Some(prev + sub),
                    None => None,
                },
                None => None,
            },
            None => None,
        }
    }
}

proof fn lemma_children_prefix(
    path: Seq<Seq<char>>,
    subs: Seq<(String, Option<Vec<RawItem>>)>,
    c: int,
)
    requires
        0 <= c <= subs.len(),
        inline_children(path, subs) is Some,
    ensures
        inline_children(path, subs.take(c)) is Some,
    decreases subs.len(),
{
    if c < subs.len() {
        lemma_children_prefix(path, subs.drop_last(), c);
        assert(subs.drop_last().take(c) =~= subs.take(c));
    } else {
        assert(subs.take(c) =~= subs);
    }
}

/// The resolved tree of the module at `path` holding `items`, where the items of
/// out-of-line submodules are taken in turn from `loads`: the module with its own
/// items, then the tree of each public submodule in order; private submodules
/// are left out. Also gives how many entries of `loads` were taken. `None` where
/// `loads` runs out or modules nest deeper than `MAX_MODULE_DEPTH`.
pub open spec fn walk(path: Seq<Seq<char>>, items: Seq<RawItem>, loads: Seq<Seq<RawItem>>) -> Option<
    (Seq<(Seq<Seq<char>>, Seq<RawItem>)>, int),
>
    decreases MAX_MODULE_DEPTH - path.len(), submodules(items).len() + 1,
{
    if path.len() > MAX_MODULE_DEPTH {
        None
    } else {
        match walk_children(path, submodules(items), loads) {
            Some((t, k)) => Some((seq![(path, own_items(items))] + t, k)),
            None => None,
        }
    }
}

/// The trees of the public submodules `subs` of the module at `path`, in order,
/// out-of-line ones taking their items from `loads` in turn.
pub open spec fn walk_children(
    path: Seq<Seq<char>>,
    subs: Seq<(String, Option<Vec<RawItem>>)>,
    loads: Seq<Seq<RawItem>>,
) -> Option<(Seq<(Seq<Seq<char>>, Seq<RawItem>)>, int)>
    decreases MAX_MODULE_DEPTH - path.len(), subs.len(),
{
    if subs.len() == 0 {
        Some((Seq::empty(), 0))
    } else if path.len() >= MAX_MODULE_DEPTH {
        None
    } else {
        match walk_children(path, subs.drop_last(), loads) {
            Some((prev, k)) => {
                let q = path.push(subs.last().0@);
                match subs.last().1 {
                    Some(content) => match walk(q, content@, loads.skip(k)) {
                        Some((sub, k2)) => Some((prev + sub, k + k2)),
                        None => None,
                    },
                    None => if 0 <= k < loads.len() {
                        match walk(q, loads[k], loads.skip(k + 1)) {
                            Some((sub, k2)) => Some((prev + sub, k + 1 + k2)),
                            None => None,
                        }
                    } else {
                        None
                    },
                }
            },
            None => None,
        }
    }
}

/// `mods` is the tree of the module at `path` holding `items`, for some items
/// of its out-of-line submodules, each used once.
pub open spec fn walked(path: Seq<Seq<char>>, items: Seq<RawItem>, mods: Seq<ModuleInfo>) -> bool {
    exists|loads: Seq<Seq<RawItem>>|
        #[trigger] walk(path, items, loads) == Some((tree_view(mods), loads.len() as int))
}

proof fn lemma_walk_extend(
    path: Seq<Seq<char>>,
    items: Seq<RawItem>,
    loads: Seq<Seq<RawItem>>,
    extra: Seq<Seq<RawItem>>,
)
    requires
        walk(path, items, loads) is Some,
    ensures
        0 <= walk(path, items, loads)->Some_0.1 <= loads.len(),
        walk(path, items, loads + extra) == walk(path, items, loads),
    decreases MAX_MODULE_DEPTH - path.len(), submodules(items).len() + 1,
{
    lemma_children_extend(path, submodules(items), loads, extra);
}

proof fn lemma_children_extend(
    path: Seq<Seq<char>>,
    subs: Seq<(String, Option<Vec<RawItem>>)>,
    loads: Seq<Seq<RawItem>>,
    extra: Seq<Seq<RawItem>>,
)
    requires
        path.len() <= MAX_MODULE_DEPTH,
        walk_children(path, subs, loads) is Some,
    ensures
        0 <= walk_children(path, subs, loads)->Some_0.1 <= loads.len(),
        walk_children(path, subs, loads + extra) == walk_children(path, subs, loads),
    decreases MAX_MODULE_DEPTH - path.len(), subs.len(),
{
    if subs.len() > 0 {
        lemma_children_extend(path, subs.drop_last(), loads, extra);
        let k = walk_children(path, subs.drop_last(), loads)->Some_0.1;
        let q = path.push(subs.last().0@);
        let all = loads + extra;
        match subs.last().1 {
            Some(content) => {
                assert(all.skip(k) =~= loads.skip(k) + extra);
                lemma_walk_extend(q, content@, loads.skip(k), extra);
            },
            None => {
                assert(all[k] == loads[k]);
                assert(all.skip(k + 1) =~= loads.skip(k + 1) + extra);
                lemma_walk_extend(q, loads[k], loads.skip(k + 1), extra);
            },
        }
    }
}

/// Resolves the module at `mod_path` that holds `items`, and below it every public
/// submodule, appending each module to `out`, the module itself first. Inline
/// submodules are taken as they stand; out-of-line ones are read through
/// `provider` and parsed. Any failure ends the whole walk. What is appended is
/// the `walk` of the tree for the items the out-of-line modules were read as;
/// where every public submodule is inline and fits the depth bound, the walk
/// succeeds without reading and appends exactly `inline_tree`.
pub fn get_children_modules<P: SourceProvider>(
    mod_path: Vec<String>,
    items: Vec<RawItem>,
    provider: &P,
    out: &mut Vec<ModuleInfo>,
) -> (r: Result<(), ResolveError>)
    requires
        mod_path@.len() <= MAX_MODULE_DEPTH,
    ensures
        r is Ok ==> final(out)@.len() > old(out)@.len(),
        r is Ok ==> final(out)@.take(old(out)@.len() as int) == old(out)@,
        r is Ok ==> path_view(final(out)@[old(out)@.len() as int].mod_path@) == path_view(
            mod_path@,
        ),
        r is Ok ==> final(out)@[old(out)@.len() as int].items@ == own_items(items@),
        r is Ok ==> forall|k: int|
            old(out)@.len() <= k < final(out)@.len() ==> path_prefix(
                path_view(mod_path@),
                path_view(#[trigger] final(out)@[k].mod_path@),
            ),
        r is Ok ==> covers(
            final(out)@,
            old(out)@.len() as int,
            path_view(mod_path@),
            submodules(items@),
        ),
        r is Ok ==> walked(
            path_view(mod_path@),
            items@,
            final(out)@.subrange(old(out)@.len() as int, final(out)@.len() as int),
        ),
        submodules(items@).len() == 0 ==> r is Ok,
        mod_path@.len() == MAX_MODULE_DEPTH && submodules(items@).len() > 0 ==> r matches Err(
            ResolveError::TooDeep,
        ),
        inline_tree(path_view(mod_path@), items@) is Some ==> r is Ok && tree_view(
            final(out)@.subrange(old(out)@.len() as int, final(out)@.len() as int),
        ) == inline_tree(path_view(mod_path@), items@)->Some_0,
    decreases MAX_MODULE_DEPTH - mod_path@.len(),
{
    let ghost out0 = out@;
    let ghost n = out@.len();
    let ghost base_v = path_view(mod_path@);
    let (own, subs0) = get_children_file_name(items);
    let ghost subs_v = subs0@;
    let base = copy_path(&mod_path);
    out.push(ModuleInfo { mod_path, items: own });
    let mut subs = subs0;
    let ghost mut c: int = 0;
    let ghost mut loads: Seq<Seq<RawItem>> = Seq::empty();
    proof {
        assert(tree_view(out@.subrange(n as int + 1, out@.len() as int)) =~= Seq::<
            (Seq<Seq<char>>, Seq<RawItem>),
        >::empty());
        assert(subs_v.take(0) =~= Seq::<(String, Option<Vec<RawItem>>)>::empty());
        assert(out@.subrange(n as int, out@.len() as int) =~= seq![out@[n as int]]);
        assert(tree_view(out@.subrange(n as int, out@.len() as int)) =~= seq![
            (base_v, own_items(items@)),
        ] + Seq::<(Seq<Seq<char>>, Seq<RawItem>)>::empty());
    }
    while subs.len() > 0
        invariant
            0 <= c <= subs_v.len(),
            subs@ == subs_v.subrange(c, subs_v.len() as int),
            subs_v == submodules(items@),
            path_view(base@) == base_v,
            base_v == path_view(mod_path@),
            base@.len() <= MAX_MODULE_DEPTH,
            out@.len() > n,
            n == out0.len(),
            out@.take(n as int) == out0,
            path_view(out@[n as int].mod_path@) == base_v,
            out@[n as int].items@ == own_items(items@),
            forall|k: int|
                n <= k < out@.len() ==> path_prefix(base_v, path_view(#[trigger] out@[k].mod_path@)),
            covers(out@, n as int, base_v, subs_v.take(c)),
            c > 0 ==> base_v.len() < MAX_MODULE_DEPTH,
            walk_children(base_v, subs_v.take(c), loads) == Some(
                (tree_view(out@.subrange(n as int + 1, out@.len() as int)), loads.len() as int),
            ),
            inline_tree(base_v, items@) is Some ==> inline_children(base_v, subs_v.take(c)) is Some
                && tree_view(out@.subrange(n as int, out@.len() as int)) == seq![
                (base_v, own_items(items@)),
            ] + inline_children(base_v, subs_v.take(c))->Some_0,
        decreases subs@.len(),
    {
        let (name, content) = subs.remove(0);
        proof {
            assert(subs_v[c].0 == name);
        }
        if base.len() >= MAX_MODULE_DEPTH {
            return Err(ResolveError::TooDeep);
        }
        let mut p = copy_path(&base);
        p.push(name);
        proof {
            assert(path_view(p@) =~= base_v.push(subs_v[c].0@));
        }
        let ghost was_inline = content is Some;
        proof {
            assert(subs_v.take(c + 1).drop_last() =~= subs_v.take(c));
            assert(subs_v.take(c + 1).last() == subs_v[c]);
            if !was_inline && inline_tree(base_v, items@) is Some {
                lemma_children_prefix(base_v, subs_v, c + 1);
            }
        }
        let child_items = match content {
            Some(inline) => inline,
            None => {
                let source = read_module_source(provider, &p);
                match parse_module(copy_path(&p), source) {
                    Ok(parsed) => parsed,
                    Err(e) => return Err(e),
                }
            },
        };
        let ghost before = out@;
        let ghost pv = path_view(p@);
        proof {
            if inline_tree(base_v, items@) is Some {
                lemma_children_prefix(base_v, subs_v, c + 1);
                assert(was_inline);
                assert(child_items@ == subs_v[c].1->Some_0@);
                assert(inline_tree(pv, child_items@) is Some);
            }
        }
        match get_children_modules(p, child_items, provider, out) {
            Ok(()) => {},
            Err(e) => return Err(e),
        }
        proof {
            let m = before.len();
            assert(out@.take(m as int) == before);
            assert forall|k: int| 0 <= k < m implies out@[k] == before[k] by {
                assert(out@.take(m as int)[k] == out@[k]);
            }
            assert(out@.take(n as int) =~= out0) by {
                assert forall|k: int| 0 <= k < n implies out@.take(n as int)[k] == out0[k] by {
                    assert(before.take(n as int)[k] == before[k]);
                }
            }
            assert forall|k: int| n <= k < out@.len() implies path_prefix(
                base_v,
                path_view(#[trigger] out@[k].mod_path@),
            ) by {
                if k >= m {
                    assert(path_prefix(pv, path_view(out@[k].mod_path@)));
                    assert forall|j: int| 0 <= j < base_v.len() implies #[trigger] path_view(
                        out@[k].mod_path@,
                    )[j] == base_v[j] by {
                        assert(pv[j] == base_v[j]);
                    }
                } else {
                    assert(out@[k] == before[k]);
                }
            }
            let t0 = subs_v.take(c);
            let t1 = subs_v.take(c + 1);
            assert forall|c2: int|
                #![trigger t1[c2]]
                0 <= c2 < t1.len() implies exists|k: int|
                    n < k < out@.len() && path_view(#[trigger] out@[k].mod_path@) == base_v.push(
                        t1[c2].0@,
                    ) by {
                assert(t1[c2] == subs_v[c2]);
                if c2 == c {
                    assert(path_view(out@[m as int].mod_path@) == base_v.push(subs_v[c2].0@));
                } else {
                    assert(t0[c2] == subs_v[c2]);
                    let k = choose|k: int|
                        n < k < before.len() && path_view(#[trigger] before[k].mod_path@)
                            == base_v.push(t0[c2].0@);
                    assert(out@[k] == before[k]);
                }
            }
            assert(covers(out@, n as int, base_v, t1));
            let lc = choose|lc: Seq<Seq<RawItem>>|
                #[trigger] walk(pv, child_items@, lc) == Some(
                    (tree_view(out@.subrange(m as int, out@.len() as int)), lc.len() as int),
                );
            let rest = if was_inline {
                lc
            } else {
                seq![child_items@] + lc
            };
            let new_loads = loads + rest;
            lemma_children_extend(base_v, t0, loads, rest);
            assert(t1.drop_last() =~= t0);
            assert(t1.last() == subs_v[c]);
            if was_inline {
                assert(new_loads.skip(loads.len() as int) =~= lc);
            } else {
                assert(new_loads[loads.len() as int] == child_items@);
                assert(new_loads.skip(loads.len() as int + 1) =~= lc);
            }
            assert(before.subrange(n as int + 1, m as int) =~= out@.subrange(n as int + 1, m as int));
            assert(out@.subrange(n as int + 1, out@.len() as int) =~= before.subrange(n as int + 1, m as int)
                + out@.subrange(m as int, out@.len() as int));
            assert(tree_view(out@.subrange(n as int + 1, out@.len() as int)) =~= tree_view(
                before.subrange(n as int + 1, m as int),
            ) + tree_view(out@.subrange(m as int, out@.len() as int)));
            assert(walk_children(base_v, t1, new_loads) == Some(
                (tree_view(out@.subrange(n as int + 1, out@.len() as int)), new_loads.len() as int),
            ));
            loads = new_loads;
            if inline_tree(base_v, items@) is Some {
                lemma_children_prefix(base_v, subs_v, c + 1);
                let prev = inline_children(base_v, t0)->Some_0;
                let sub = inline_tree(pv, subs_v[c].1->Some_0@)->Some_0;
                assert(inline_children(base_v, t1) == Some(prev + sub));
                assert(out@.subrange(n as int, out@.len() as int) =~= before.subrange(
                    n as int,
                    m as int,
                ) + out@.subrange(m as int, out@.len() as int));
                assert(tree_view(out@.subrange(n as int, out@.len() as int)) =~= tree_view(
                    before.subrange(n as int, m as int),
                ) + tree_view(out@.subrange(m as int, out@.len() as int)));
            }
            c = c + 1;
            assert(subs@ =~= subs_v.subrange(c, subs_v.len() as int));
        }
    }
    proof {
        assert(c == subs_v.len());
        assert(subs_v.take(c) =~= subs_v);
        let whole = out@.subrange(n as int, out@.len() as int);
        assert(whole =~= seq![out@[n as int]] + out@.subrange(n as int + 1, out@.len() as int));
        assert(tree_view(whole) =~= seq![(base_v, own_items(items@))] + tree_view(
            out@.subrange(n as int + 1, out@.len() as int),
        ));
        assert(walk(base_v, items@, loads) == Some((tree_view(whole), loads.len() as int)));
    }
    Ok(())
}

/// Resolves a whole crate from the items of its entry file: the root module,
/// whose path is empty, comes first, then every public submodule below it. Any
/// missing file or parse failure fails the whole tree.
pub fn resolve_tree<P: SourceProvider>(root_items: Vec<RawItem>, provider: &P) -> (r: Result<
    Vec<ModuleInfo>,
    ResolveError,
>)
    ensures
        r matches Ok(mods) ==> {
            &&& mods@.len() >= 1
            &&& mods@[0].mod_path@.len() == 0
            &&& mods@[0].items@ == own_items(root_items@)
            &&& covers(mods@, 0, Seq::empty(), submodules(root_items@))
            &&& walked(Seq::empty(), root_items@, mods@)
        },
        submodules(root_items@).len() == 0 ==> r is Ok,
        inline_tree(Seq::empty(), root_items@) is Some ==> (r matches Ok(mods) && tree_view(mods@)
            == inline_tree(Seq::empty(), root_items@)->Some_0),
{
    let mut out: Vec<ModuleInfo> = Vec::new();
    let root: Vec<String> = Vec::new();
    let ghost rv = path_view(root@);
    assert(rv =~= Seq::<Seq<char>>::empty());
    match get_children_modules(root, root_items, provider, &mut out) {
        Ok(()) => {
            proof {
                assert(rv =~= Seq::<Seq<char>>::empty());
                assert(path_view(out@[0].mod_path@).len() == out@[0].mod_path@.len());
                assert(out@.subrange(0, out@.len() as int) =~= out@);
            }
            Ok(out)
        },
        Err(e) => Err(e),
    }
}

} // verus!
