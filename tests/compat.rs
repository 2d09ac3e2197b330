use api_compat::compat::{decl_eq, determine_compatibility, fields_eq};
use api_compat::model::{
    Declaration, FieldShape, Finding, FunctionShape, ModuleInfo, NamedField, Param, RawItem,
    Report, VariantShape, Verdict,
};
use api_compat::resolve::MAX_MODULE_DEPTH;
use api_compat::run::{compare_modules, show_name};
use api_compat::surface::extract_types;
use api_compat::syntax::{parse_source, SyntaxError};

fn s(x: &str) -> String {
    x.to_string()
}

fn field(public: bool, name: &str, ty: &str) -> NamedField {
    NamedField { public, name: Some(s(name)), ty: s(ty) }
}

fn items(text: &str) -> Vec<RawItem> {
    parse_source(text, MAX_MODULE_DEPTH).unwrap()
}

fn module(path: &[&str], text: &str) -> ModuleInfo {
    ModuleInfo { mod_path: path.iter().map(|p| s(p)).collect(), items: items(text) }
}

fn verdict(old: &str, new: &str) -> Verdict {
    let old_items = items(old);
    let new_items = items(new);
    let olds = extract_types(&old_items);
    let news = extract_types(&new_items);
    assert_eq!(olds.len(), 1);
    determine_compatibility(olds[0], &news)
}

#[test]
fn private_retype_and_added_public_field_are_compatible() {
    let old = Declaration::Struct {
        name: s("S"),
        fields: FieldShape::Named(vec![field(true, "a", "i32"), field(false, "b", "i32")]),
    };
    let new = Declaration::Struct {
        name: s("S"),
        fields: FieldShape::Named(vec![
            field(true, "a", "i32"),
            field(false, "b", "String"),
            field(true, "c", "bool"),
        ]),
    };
    assert_eq!(determine_compatibility(&old, &vec![&new]), Verdict::Compatible);
    assert_eq!(
        verdict(
            "pub struct S { pub a: i32, b: i32 }",
            "pub struct S { pub a: i32, b: String, pub c: bool }"
        ),
        Verdict::Compatible
    );
}

#[test]
fn removed_public_field_is_incompatible() {
    let old = Declaration::Struct {
        name: s("S"),
        fields: FieldShape::Named(vec![field(true, "a", "i32")]),
    };
    let new = Declaration::Struct { name: s("S"), fields: FieldShape::Named(vec![]) };
    assert_eq!(determine_compatibility(&old, &vec![&new]), Verdict::Incompatible(0));
    assert_eq!(verdict("pub struct S { pub a: i32 }", "pub struct S {}"), Verdict::Incompatible(0));
}

#[test]
fn added_enum_variant_is_compatible() {
    let unit = |n: &str| VariantShape { name: s(n), fields: FieldShape::Unit };
    let old = Declaration::Enum { name: s("E"), variants: vec![unit("A"), unit("B")] };
    let new = Declaration::Enum { name: s("E"), variants: vec![unit("A"), unit("B"), unit("C")] };
    assert_eq!(determine_compatibility(&old, &vec![&new]), Verdict::Compatible);
    assert_eq!(verdict("pub enum E { A, B }", "pub enum E { A, B, C }"), Verdict::Compatible);
}

#[test]
fn removed_or_changed_enum_variant_is_incompatible() {
    assert_eq!(verdict("pub enum E { A, B }", "pub enum E { A }"), Verdict::Incompatible(0));
    assert_eq!(verdict("pub enum E { A, B }", "pub enum E { A, B(u8) }"), Verdict::Incompatible(0));
}

#[test]
fn changed_parameter_type_is_incompatible() {
    let f = |ty: &str| Declaration::Function {
        name: s("f"),
        shape: FunctionShape {
            is_const: false,
            is_async: false,
            is_unsafe: false,
            params: vec![Param::Typed { pat: s("x"), ty: s(ty) }],
            ret: Some(s("bool")),
        },
    };
    assert_eq!(determine_compatibility(&f("i32"), &vec![&f("i64")]), Verdict::Incompatible(0));
    assert_eq!(
        verdict("pub fn f(x: i32) -> bool { true }", "pub fn f(x: i64) -> bool { true }"),
        Verdict::Incompatible(0)
    );
}

#[test]
fn every_parameter_is_compared_not_only_the_last() {
    assert_eq!(
        verdict("pub fn f(x: i32, y: u8) {}", "pub fn f(x: i64, y: u8) {}"),
        Verdict::Incompatible(0)
    );
}

#[test]
fn function_modifiers_and_return_type_must_match() {
    assert_eq!(verdict("pub fn f() {}", "pub unsafe fn f() {}"), Verdict::Incompatible(0));
    assert_eq!(verdict("pub fn f() {}", "pub async fn f() {}"), Verdict::Incompatible(0));
    assert_eq!(verdict("pub fn f() {}", "pub const fn f() {}"), Verdict::Incompatible(0));
    assert_eq!(verdict("pub fn f() {}", "pub fn f() -> () {}"), Verdict::Incompatible(0));
    assert_eq!(verdict("pub fn f(x: u8) {}", "pub fn f(y: u8) {}"), Verdict::Incompatible(0));
}

#[test]
fn receivers_are_compared_by_reference_and_mutability() {
    assert_eq!(
        verdict("pub fn f(&self) {}", "pub fn f(&mut self) {}"),
        Verdict::Incompatible(0)
    );
    assert_eq!(verdict("pub fn f(&self) {}", "pub fn f(self) {}"), Verdict::Incompatible(0));
    assert_eq!(verdict("pub fn f(&self) {}", "pub fn f(&self) {}"), Verdict::Compatible);
}

#[test]
fn unchanged_declarations_of_every_kind_are_compatible() {
    let text = "
        pub const C: u32 = 1;
        pub static S: &str = \"s\";
        pub static mut M: i64 = 0;
        pub union U { pub a: u32, b: f32 }
        pub type T = Vec<u8>;
        pub struct P(pub i32, String);
        pub struct N { pub x: i32, y: i32 }
        pub struct Z;
        pub enum E { A, B(u8), C { x: i32 } }
        pub fn f<T>(&self, x: T, (a, b): (u8, u8)) -> Option<T> { None }
        macro_rules! m { () => {} }
    ";
    let old_items = items(text);
    let new_items = items(text);
    let olds = extract_types(&old_items);
    let news = extract_types(&new_items);
    assert_eq!(olds.len(), 11);
    for d in olds.iter() {
        assert_eq!(determine_compatibility(d, &news), Verdict::Compatible, "{}", show_name(d));
        assert!(decl_eq(d, d));
    }
}

#[test]
fn constant_static_and_alias_types_are_compared() {
    assert_eq!(verdict("pub const C: u32 = 1;", "pub const C: u64 = 1;"), Verdict::Incompatible(0));
    assert_eq!(verdict("pub const C: u32 = 1;", "pub const C: u32 = 2;"), Verdict::Compatible);
    assert_eq!(verdict("pub static S: u8 = 1;", "pub static mut S: u8 = 1;"), Verdict::Incompatible(0));
    assert_eq!(verdict("pub type T = u8;", "pub type T = u16;"), Verdict::Incompatible(0));
}

#[test]
fn positional_fields_need_equal_arity_and_types() {
    assert_eq!(verdict("pub struct P(pub u8);", "pub struct P(pub u8, pub u8);"), Verdict::Incompatible(0));
    assert_eq!(verdict("pub struct P(pub u8, u16);", "pub struct P(pub u8, u32);"), Verdict::Incompatible(0));
    assert!(!fields_eq(&FieldShape::Unit, &FieldShape::Positional(vec![])));
    assert!(fields_eq(&FieldShape::Positional(vec![s("u8")]), &FieldShape::Positional(vec![s("u8")])));
}

#[test]
fn type_text_is_canonical_tokens() {
    let parsed = items("pub const X: Vec<i32> = Vec::new();");
    match &parsed[0] {
        RawItem::Declared { public: true, decl: Declaration::Constant { name, ty } } => {
            assert_eq!(name, "X");
            assert_eq!(ty, "Vec < i32 >");
        }
        other => panic!("unexpected item {:?}", other),
    }
    assert_eq!(
        verdict("pub const X: Vec<i32> = Vec::new();", "pub const X: Vec< i32 > = Vec::new();"),
        Verdict::Compatible
    );
}

#[test]
fn missing_declaration_and_kind_change_are_missing() {
    assert_eq!(verdict("pub fn f() {}", "pub fn g() {}"), Verdict::Missing);
    assert_eq!(verdict("pub struct A;", "pub enum A { X }"), Verdict::Missing);
    assert_eq!(verdict("pub struct A;", "struct A;"), Verdict::Missing);
}

#[test]
fn macros_match_by_name_alone() {
    assert_eq!(
        verdict("macro_rules! m { () => {} }", "macro_rules! m { ($x:expr) => { $x } }"),
        Verdict::Compatible
    );
}

#[test]
fn only_fully_public_declarations_are_extracted() {
    let parsed = items("pub struct A; struct B; pub(crate) fn c() {} pub(super) const D: u8 = 0; impl A {}");
    let surface = extract_types(&parsed);
    assert_eq!(surface.len(), 1);
    assert_eq!(show_name(surface[0]), "struct A");
}

#[test]
fn show_name_gives_kind_and_name() {
    let parsed = items("pub fn go() {} pub union U { a: u8 } pub type T = u8;");
    let surface = extract_types(&parsed);
    let names: Vec<String> = surface.iter().map(|d| show_name(d)).collect();
    assert_eq!(names, vec!["fn go", "union U", "type T"]);
}

#[test]
fn parse_failure_is_reported() {
    assert!(matches!(parse_source("pub struct {", MAX_MODULE_DEPTH), Err(SyntaxError::Parse(_))));
}

#[test]
fn inline_nesting_beyond_the_bound_is_refused() {
    assert!(matches!(parse_source("pub mod a { pub mod b {} }", 1), Err(SyntaxError::TooDeep)));
    assert!(parse_source("pub mod a { pub mod b {} }", 2).is_ok());
}

#[test]
fn declarations_are_never_compared_across_module_paths() {
    let old = vec![module(&["a", "b"], "pub struct X;")];
    let new = vec![module(&["a", "c"], "pub struct X;")];
    assert_eq!(
        compare_modules(&old, &new),
        vec![Report { module: 0, finding: Finding::ModuleMissing }]
    );
}

#[test]
fn findings_follow_old_modules_and_declarations_in_order() {
    let old = vec![
        module(&[], "pub fn f() {} pub struct S { pub a: u8 } pub const K: u8 = 0;"),
        module(&["gone"], "pub fn g() {}"),
        module(&["m"], "pub enum E { A }"),
    ];
    let new = vec![
        module(&["m"], "pub enum E { A, B }"),
        module(&[], "pub const K: u16 = 0; pub struct S { pub a: u8, pub b: u8 }"),
    ];
    let reports = compare_modules(&old, &new);
    assert_eq!(
        reports,
        vec![
            Report { module: 0, finding: Finding::Missing { old: 0 } },
            Report { module: 0, finding: Finding::Incompatible { old: 2, new_module: 1, new: 0 } },
            Report { module: 1, finding: Finding::ModuleMissing },
        ]
    );
}

#[test]
fn comparing_twice_gives_identical_findings() {
    let old = vec![module(&[], "pub fn f(x: u8) {} pub struct S;"), module(&["x"], "pub const A: u8 = 1;")];
    let new = vec![module(&[], "pub fn f(x: u16) {}")];
    let first = compare_modules(&old, &new);
    let second = compare_modules(&old, &new);
    assert_eq!(first, second);
    assert_eq!(first.len(), 3);
}

#[test]
fn unrelated_new_modules_do_not_change_findings() {
    let old = vec![module(&["a"], "pub fn f() {}")];
    let new = vec![module(&["a"], "pub fn f(x: u8) {}")];
    let mut more = vec![module(&["a"], "pub fn f(x: u8) {}")];
    more.push(module(&["b"], "pub fn f() {}"));
    assert_eq!(compare_modules(&old, &new), compare_modules(&old, &more));
}
