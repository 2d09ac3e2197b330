use api_compat::model::{Declaration, ModuleInfo, RawItem};
use api_compat::resolve::{
    choose_module_source, get_children_modules, module_file_candidates, parse_module,
    read_module_source, resolve_tree, settle_source, ResolveError, SourceProvider,
    MAX_MODULE_DEPTH,
};
use std::cell::RefCell;
use api_compat::syntax::parse_source;
use std::collections::HashMap;

struct Files(HashMap<String, String>);

impl Files {
    fn new(files: &[(&str, &str)]) -> Files {
        Files(files.iter().map(|(k, v)| (k.to_string(), v.to_string())).collect())
    }
}

impl SourceProvider for Files {
    fn fetch(&self, file: &Vec<String>) -> Result<Option<String>, String> {
        Ok(self.0.get(&file.join("/")).cloned())
    }
}

struct Broken;

impl SourceProvider for Broken {
    fn fetch(&self, _file: &Vec<String>) -> Result<Option<String>, String> {
        Err("disk unreadable".to_string())
    }
}

fn path(p: &[&str]) -> Vec<String> {
    p.iter().map(|s| s.to_string()).collect()
}

fn root(text: &str) -> Vec<RawItem> {
    parse_source(text, MAX_MODULE_DEPTH).unwrap()
}

fn paths(mods: &[ModuleInfo]) -> Vec<String> {
    let mut v: Vec<String> = mods.iter().map(|m| m.mod_path.join("::")).collect();
    v.sort();
    v
}

fn names(m: &ModuleInfo) -> Vec<String> {
    m.items
        .iter()
        .filter_map(|i| match i {
            RawItem::Declared { decl: Declaration::Struct { name, .. }, .. } => Some(name.clone()),
            _ => None,
        })
        .collect()
}

#[test]
fn candidates_put_the_out_of_line_file_first() {
    let (first, second) = module_file_candidates(&path(&["a", "b"]));
    assert_eq!(first, path(&["a", "b.rs"]));
    assert_eq!(second, path(&["a", "b", "mod.rs"]));
}

#[test]
fn out_of_line_file_wins_when_both_exist() {
    let files = Files::new(&[("a.rs", "pub struct FromFile;"), ("a/mod.rs", "pub struct FromDir;")]);
    assert_eq!(read_module_source(&files, &path(&["a"])).unwrap(), "pub struct FromFile;");
    let mods = resolve_tree(root("pub mod a;"), &files).unwrap();
    let a = mods.iter().find(|m| m.mod_path == path(&["a"])).unwrap();
    assert_eq!(names(a), vec!["FromFile"]);
}

#[test]
fn directory_entry_is_used_when_alone() {
    let files = Files::new(&[("a/mod.rs", "pub struct FromDir;")]);
    assert_eq!(read_module_source(&files, &path(&["a"])).unwrap(), "pub struct FromDir;");
    let files = Files::new(&[("a.rs", "pub struct FromFile;")]);
    assert_eq!(read_module_source(&files, &path(&["a"])).unwrap(), "pub struct FromFile;");
}

#[test]
fn absence_of_both_files_names_both() {
    let files = Files::new(&[]);
    match read_module_source(&files, &path(&["x", "y"])) {
        Err(ResolveError::NotFound { out_of_line, dir_entry }) => {
            assert_eq!(out_of_line, path(&["x", "y.rs"]));
            assert_eq!(dir_entry, path(&["x", "y", "mod.rs"]));
        }
        other => panic!("unexpected {:?}", other),
    }
}

#[test]
fn choose_module_source_prefers_out_of_line() {
    let tried = (path(&["a.rs"]), path(&["a", "mod.rs"]));
    let r = choose_module_source(Some("one".to_string()), Some("two".to_string()), tried.clone());
    assert_eq!(r.unwrap(), "one");
    let r = choose_module_source(None, Some("two".to_string()), tried.clone());
    assert_eq!(r.unwrap(), "two");
    assert!(matches!(choose_module_source(None, None, tried), Err(ResolveError::NotFound { .. })));
}

#[test]
fn tree_follows_public_inline_and_out_of_line_modules() {
    let files = Files::new(&[
        ("a.rs", "pub mod b; mod hidden; pub struct A;"),
        ("a/b/mod.rs", "pub struct B;"),
        ("c.rs", "pub struct C;"),
    ]);
    let mods = resolve_tree(
        root("pub mod a; pub mod inl { pub mod deep { pub struct D; } } mod c; pub struct R;"),
        &files,
    )
    .unwrap();
    assert_eq!(paths(&mods), vec!["", "a", "a::b", "inl", "inl::deep"]);
    assert!(mods[0].mod_path.is_empty());
    assert_eq!(names(&mods[0]), vec!["R"]);
    let deep = mods.iter().find(|m| m.mod_path == path(&["inl", "deep"])).unwrap();
    assert_eq!(names(deep), vec!["D"]);
}

#[test]
fn a_missing_module_file_fails_the_whole_tree() {
    let files = Files::new(&[("a.rs", "pub mod gone;")]);
    match resolve_tree(root("pub mod a;"), &files) {
        Err(ResolveError::NotFound { out_of_line, dir_entry }) => {
            assert_eq!(out_of_line, path(&["a", "gone.rs"]));
            assert_eq!(dir_entry, path(&["a", "gone", "mod.rs"]));
        }
        other => panic!("unexpected {:?}", other),
    }
}

#[test]
fn a_parse_failure_fails_the_whole_tree() {
    let files = Files::new(&[("a.rs", "pub struct {")]);
    match resolve_tree(root("pub mod a;"), &files) {
        Err(ResolveError::Parse { path: p, .. }) => assert_eq!(p, path(&["a"])),
        other => panic!("unexpected {:?}", other),
    }
}

#[test]
fn a_read_failure_fails_the_whole_tree() {
    assert!(matches!(resolve_tree(root("pub mod a;"), &Broken), Err(ResolveError::Read(_))));
}

#[test]
fn a_self_including_module_ends_with_too_deep() {
    let files = Files::new(&[("a.rs", "pub mod a;")]);
    let mut f = files.0.clone();
    let mut p = String::from("a");
    for _ in 0..(MAX_MODULE_DEPTH + 1) {
        p.push_str("/a");
        f.insert(format!("{}.rs", p), "pub mod a;".to_string());
    }
    assert!(matches!(resolve_tree(root("pub mod a;"), &Files(f)), Err(ResolveError::TooDeep)));
}

struct Untouchable;

impl SourceProvider for Untouchable {
    fn fetch(&self, file: &Vec<String>) -> Result<Option<String>, String> {
        panic!("no file should be read, yet {:?} was", file)
    }
}

struct Logged {
    answers: HashMap<String, Result<Option<String>, String>>,
    calls: RefCell<Vec<String>>,
}

impl SourceProvider for Logged {
    fn fetch(&self, file: &Vec<String>) -> Result<Option<String>, String> {
        let key = file.join("/");
        self.calls.borrow_mut().push(key.clone());
        self.answers.get(&key).cloned().unwrap_or(Ok(None))
    }
}

#[test]
fn inline_tree_resolves_without_reading_and_skips_private_modules() {
    let mods = resolve_tree(
        root("mod a { pub mod x {} } pub mod b { pub mod c {} } pub(crate) mod d;"),
        &Untouchable,
    )
    .unwrap();
    let order: Vec<String> = mods.iter().map(|m| m.mod_path.join("::")).collect();
    assert_eq!(order, vec!["", "b", "b::c"]);
}

#[test]
fn a_root_without_public_submodules_resolves_to_itself() {
    let mods = resolve_tree(root("pub struct S; mod hidden;"), &Untouchable).unwrap();
    assert_eq!(mods.len(), 1);
    assert_eq!(names(&mods[0]), vec!["S"]);
}

#[test]
fn a_submodule_below_the_depth_bound_is_too_deep() {
    let deep: Vec<String> = (0..MAX_MODULE_DEPTH).map(|i| format!("m{}", i)).collect();
    let mut out = Vec::new();
    let r = get_children_modules(deep.clone(), root("pub mod x {}"), &Untouchable, &mut out);
    assert!(matches!(r, Err(ResolveError::TooDeep)));
    let mut out = Vec::new();
    assert!(get_children_modules(deep, root("pub struct S;"), &Untouchable, &mut out).is_ok());
    assert_eq!(out.len(), 1);
}

#[test]
fn a_failed_first_read_ends_the_lookup() {
    let mut answers = HashMap::new();
    answers.insert("a.rs".to_string(), Err("permission denied".to_string()));
    answers.insert("a/mod.rs".to_string(), Ok(Some("pub struct S;".to_string())));
    let logged = Logged { answers, calls: RefCell::new(Vec::new()) };
    assert!(matches!(read_module_source(&logged, &path(&["a"])), Err(ResolveError::Read(_))));
    assert_eq!(*logged.calls.borrow(), vec!["a.rs"]);
}

#[test]
fn the_directory_entry_is_read_only_after_a_missing_out_of_line_file() {
    let mut answers = HashMap::new();
    answers.insert("a.rs".to_string(), Ok(Some("pub struct F;".to_string())));
    let logged = Logged { answers, calls: RefCell::new(Vec::new()) };
    assert_eq!(read_module_source(&logged, &path(&["a"])).unwrap(), "pub struct F;");
    assert_eq!(*logged.calls.borrow(), vec!["a.rs"]);
    let logged = Logged { answers: HashMap::new(), calls: RefCell::new(Vec::new()) };
    assert!(read_module_source(&logged, &path(&["a"])).is_err());
    assert_eq!(*logged.calls.borrow(), vec!["a.rs", "a/mod.rs"]);
}

#[test]
fn settle_source_decides_from_both_fetches() {
    let tried = (path(&["a.rs"]), path(&["a", "mod.rs"]));
    let r = settle_source(Err("boom".to_string()), None, tried.clone());
    assert!(matches!(r, Err(ResolveError::Read(m)) if m == "boom"));
    let r = settle_source(Ok(Some("one".to_string())), None, tried.clone());
    assert_eq!(r.unwrap(), "one");
    let r = settle_source(Ok(None), Some(Err("bad".to_string())), tried.clone());
    assert!(matches!(r, Err(ResolveError::Read(m)) if m == "bad"));
    let r = settle_source(Ok(None), Some(Ok(Some("two".to_string()))), tried.clone());
    assert_eq!(r.unwrap(), "two");
    match settle_source(Ok(None), Some(Ok(None)), tried) {
        Err(ResolveError::NotFound { out_of_line, dir_entry }) => {
            assert_eq!(out_of_line, path(&["a.rs"]));
            assert_eq!(dir_entry, path(&["a", "mod.rs"]));
        }
        other => panic!("unexpected {:?}", other),
    }
}

#[test]
fn parse_module_keeps_read_errors_and_names_unparsable_modules() {
    let r = parse_module(path(&["a"]), Err(ResolveError::Read("gone".to_string())));
    assert!(matches!(r, Err(ResolveError::Read(m)) if m == "gone"));
    let r = parse_module(path(&["a", "b"]), Ok("pub fn (".to_string()));
    assert!(matches!(r, Err(ResolveError::Parse { path: p, .. }) if p == path(&["a", "b"])));
    let r = parse_module(path(&["a"]), Ok("pub struct S; struct T;".to_string())).unwrap();
    assert_eq!(r.len(), 2);
}
