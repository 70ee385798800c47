use bundler_lib::ast_bundler::{
    bundle, AstBundler, BundleError, ConstItem, Decl, DeclKind, Entry, Library, LitValue, Loaded, Module, SourceUnit,
};
use bundler_lib::file_resolver::FileResolver;
use bundler_lib::tokens::{library_refs, strip_paths, Tok};
use bundler_lib::use_tree::UseTree;

/// Splits text at white space into tokens: `::` is the separator, words are
/// identifiers, quoted or numeric words are literals, the rest punctuation.
fn toks(src: &str) -> Vec<Tok> {
    src.split_whitespace()
        .map(|w| {
            if w == "::" {
                Tok::Sep
            } else if w.starts_with('"') || w.chars().next().unwrap().is_ascii_digit() {
                Tok::Literal(w.to_string())
            } else if w.chars().next().unwrap().is_alphabetic() || w.starts_with('_') {
                Tok::Ident(w.to_string())
            } else {
                Tok::Punct(w.to_string(), false)
            }
        })
        .collect()
}

fn item(kind: DeclKind, name: &str, src: &str) -> Entry {
    Entry::Item(Decl { kind, name: name.to_string(), tokens: toks(src) })
}

fn func(name: &str, src: &str) -> Entry {
    item(DeclKind::Function, name, src)
}

fn use_path(segs: &[&str]) -> UseTree {
    let mut tree = UseTree::Name(segs[segs.len() - 1].to_string());
    for s in segs[..segs.len() - 1].iter().rev() {
        tree = UseTree::Path(s.to_string(), Box::new(tree));
    }
    tree
}

fn import(segs: &[&str], src: &str) -> Entry {
    Entry::Import(use_path(segs), toks(src))
}

fn unit(entries: Vec<Entry>) -> SourceUnit {
    SourceUnit { entries, consts: Vec::new() }
}

fn library(files: &[&str], modules: Vec<(&str, Loaded)>) -> Library {
    Library {
        root: "cp_lib".to_string(),
        resolver: FileResolver::new("lib", files.iter().map(|f| f.to_string()).collect()),
        modules: modules.into_iter().map(|(p, l)| Module { path: p.to_string(), loaded: l }).collect(),
    }
}

fn exponential_library(body: &str) -> Library {
    library(
        &["algorithms/mod.rs", "algorithms/exponential.rs"],
        vec![
            ("lib/algorithms/mod.rs", Loaded::Parsed(unit(vec![item(DeclKind::Other, "", "pub mod exponential ;")]))),
            ("lib/algorithms/exponential.rs", Loaded::Parsed(unit(vec![func("pow", body)]))),
        ],
    )
}

fn count(hay: &str, needle: &str) -> usize {
    hay.matches(needle).count()
}

#[test]
fn resolves_module_imports_like_cp_lib_algorithms_exponential() {
    let lib = library(
        &["algorithms/mod.rs", "algorithms/exponential.rs"],
        vec![
            ("lib/algorithms/mod.rs", Loaded::Parsed(unit(vec![item(DeclKind::Other, "", "pub mod exponential ;")]))),
            (
                "lib/algorithms/exponential.rs",
                Loaded::Parsed(unit(vec![func("expo", "pub fn expo ( ) -> i32 { 7 }")])),
            ),
        ],
    );
    let main = unit(vec![
        import(&["cp_lib", "algorithms", "exponential"], "use cp_lib :: algorithms :: exponential ;"),
        func("main", "fn main ( ) { let _ = exponential :: expo ( ) ; }"),
    ]);
    let bundled = bundle(lib, &main, 0).unwrap();
    assert!(bundled.contains("fn expo"));
    assert!(!bundled.contains("cp_lib"));
    assert!(!bundled.contains("exponential :: expo"));
}

#[test]
fn rewrites_fully_qualified_cp_lib_paths() {
    let lib = library(
        &["algorithms/mod.rs", "algorithms/exponential.rs"],
        vec![(
            "lib/algorithms/exponential.rs",
            Loaded::Parsed(unit(vec![func("binpow", "pub fn binpow ( _a : i64 , _b : i64 ) -> i64 { 1 }")])),
        )],
    );
    let main = unit(vec![func(
        "main",
        "fn main ( ) { let x = cp_lib :: algorithms :: exponential :: binpow ( 2 , 8 ) ; println ! ( \"{}\" , x ) ; }",
    )]);
    let bundled = bundle(lib, &main, 0).unwrap();
    assert!(bundled.contains("fn binpow"));
    assert!(!bundled.contains("cp_lib"));
}

#[test]
fn alias_import_inlines_module_once() {
    let lib = exponential_library("pub fn pow ( a : u64 , b : u64 ) -> u64 { a }");
    let main = unit(vec![
        import(&["cp_lib", "algorithms", "exponential"], "use cp_lib :: algorithms :: exponential ;"),
        func("main", "fn main ( ) { let x = exponential :: pow ( 2 , 10 ) ; }"),
    ]);
    let out = bundle(lib, &main, 5).unwrap();
    assert_eq!(count(&out, "pub fn pow"), 1);
    assert!(out.contains("let x = pow ( 2 , 10 ) ;"));
    assert_eq!(count(&out, "cp_lib"), 0);
}

#[test]
fn qualified_call_without_import_inlines_module() {
    let lib = exponential_library("pub fn pow_mod ( a : u64 , b : u64 , m : u64 ) -> u64 { a }");
    let main = unit(vec![func(
        "main",
        "fn main ( ) { let y = cp_lib :: algorithms :: exponential :: pow_mod ( 2 , 8 , 1000000007 ) ; }",
    )]);
    let out = bundle(lib, &main, 5).unwrap();
    assert_eq!(count(&out, "pub fn pow_mod"), 1);
    assert!(out.contains("let y = pow_mod ( 2 , 8 , 1000000007 ) ;"));
    assert_eq!(count(&out, "cp_lib"), 0);
}

#[test]
fn empty_library_keeps_entry_only() {
    let lib = library(&[], vec![]);
    let main = unit(vec![func("main", "fn main ( ) { }")]);
    let out = bundle(lib, &main, 42).unwrap();
    let expected = "// Code bundled for competitive programming\n\
        // Generated automatically using AST-based bundler\n\
        // Generated at: 42\n\n\
        use std::io::{self, BufRead, Cursor};\n\
        use std::collections::*;\n\
        use std::fmt::Debug;\n\n\
        // ==================== Library Code ====================\n\
        // ==================== Main Code ====================\n\
        fn main ( ) { }\n\n";
    assert_eq!(out, expected);
}

#[test]
fn module_imported_twice_is_inlined_once() {
    let lib = library(
        &["algorithms/exponential.rs", "math/gcd.rs"],
        vec![
            ("lib/algorithms/exponential.rs", Loaded::Parsed(unit(vec![func("pow", "pub fn pow ( ) { }")]))),
            (
                "lib/math/gcd.rs",
                Loaded::Parsed(unit(vec![
                    import(&["cp_lib", "algorithms", "exponential"], "use cp_lib :: algorithms :: exponential ;"),
                    func("gcd", "pub fn gcd ( ) { exponential :: pow ( ) ; }"),
                ])),
            ),
        ],
    );
    let main = unit(vec![
        import(&["cp_lib", "algorithms", "exponential"], "use cp_lib :: algorithms :: exponential ;"),
        import(&["cp_lib", "math", "gcd"], "use cp_lib :: math :: gcd ;"),
        func("main", "fn main ( ) { gcd :: gcd ( ) ; exponential :: pow ( ) ; }"),
    ]);
    let out = bundle(lib, &main, 1).unwrap();
    assert_eq!(count(&out, "pub fn pow"), 1);
    assert_eq!(count(&out, "pub fn gcd"), 1);
    assert!(out.contains("fn main ( ) { gcd ( ) ; pow ( ) ; }"));
}

#[test]
fn library_declarations_come_before_main() {
    let lib = exponential_library("pub fn pow ( ) { }");
    let main = unit(vec![
        func("main", "fn main ( ) { cp_lib :: algorithms :: exponential :: pow ( ) ; helper ( ) ; }"),
        func("helper", "fn helper ( ) { }"),
    ]);
    let out = bundle(lib, &main, 1).unwrap();
    let main_at = out.find("fn main").unwrap();
    let mark = out.find("// ==================== Main Code").unwrap();
    assert!(out.find("fn helper").unwrap() < mark);
    assert!(out.find("pub fn pow").unwrap() < mark);
    assert!(mark < main_at);
}

#[test]
fn metadata_constants_are_left_out() {
    let lib = library(&[], vec![]);
    let mut main = unit(vec![
        item(DeclKind::Const, "_PROBLEM", "const _PROBLEM : & str = \"A. Test\" ;"),
        item(DeclKind::Const, "ID", "const ID : & str = \"X1\" ;"),
        item(DeclKind::Const, "LIMIT", "const LIMIT : u32 = 10 ;"),
        func("main", "fn main ( ) { }"),
    ]);
    main.consts.push(ConstItem { name: "_PROBLEM".to_string(), value: LitValue::Str("A. Test".to_string()) });
    let out = bundle(lib, &main, 1).unwrap();
    assert!(!out.contains("_PROBLEM"));
    assert!(!out.contains("const ID"));
    assert!(out.contains("const LIMIT : u32 = 10 ;"));
}

#[test]
fn unreadable_module_fails_with_its_path() {
    let lib = library(
        &["algorithms/exponential.rs"],
        vec![("lib/algorithms/exponential.rs", Loaded::Failed("expected `;`".to_string()))],
    );
    let main = unit(vec![
        import(&["cp_lib", "algorithms", "exponential"], "use cp_lib :: algorithms :: exponential ;"),
        func("main", "fn main ( ) { }"),
    ]);
    let err = bundle(lib, &main, 1).unwrap_err();
    assert_eq!(
        err,
        BundleError { path: "lib/algorithms/exponential.rs".to_string(), message: "expected `;`".to_string() }
    );
}

#[test]
fn unreached_broken_module_does_not_fail() {
    let lib = library(
        &["algorithms/exponential.rs", "broken.rs"],
        vec![
            ("lib/algorithms/exponential.rs", Loaded::Parsed(unit(vec![func("pow", "pub fn pow ( ) { }")]))),
            ("lib/broken.rs", Loaded::Failed("unexpected token".to_string())),
        ],
    );
    let main = unit(vec![func("main", "fn main ( ) { cp_lib :: algorithms :: exponential :: pow ( ) ; }")]);
    assert!(bundle(lib, &main, 1).is_ok());
}

#[test]
fn unresolved_library_import_is_dropped() {
    let lib = library(&[], vec![]);
    let main = unit(vec![
        import(&["cp_lib", "missing", "thing"], "use cp_lib :: missing :: thing ;"),
        func("main", "fn main ( ) { }"),
    ]);
    let out = bundle(lib, &main, 1).unwrap();
    assert!(!out.contains("cp_lib"));
}

#[test]
fn outside_imports_are_kept_once_without_io() {
    let lib = library(&[], vec![]);
    let main = unit(vec![
        import(&["std", "cmp", "max"], "use std :: cmp :: max ;"),
        import(&["std", "cmp", "max"], "use std :: cmp :: max ;"),
        import(&["std", "io", "Write"], "use std :: io :: Write ;"),
        import(&["itertools", "Itertools"], "use itertools :: Itertools ;"),
        import(&["crate", "util"], "use crate :: util ;"),
        func("main", "fn main ( ) { }"),
    ]);
    let out = bundle(lib, &main, 1).unwrap();
    assert_eq!(count(&out, "use std :: cmp :: max ;\n"), 1);
    assert!(!out.contains("io :: Write"));
    assert_eq!(count(&out, "use itertools :: Itertools ;\n"), 1);
    assert!(!out.contains("crate :: util"));
}

#[test]
fn renamed_module_import_strips_its_rename() {
    let lib = exponential_library("pub fn pow ( ) { }");
    let main = unit(vec![
        Entry::Import(
            UseTree::Path(
                "cp_lib".to_string(),
                Box::new(UseTree::Path(
                    "algorithms".to_string(),
                    Box::new(UseTree::Rename("exponential".to_string(), "ex".to_string())),
                )),
            ),
            toks("use cp_lib :: algorithms :: exponential as ex ;"),
        ),
        func("main", "fn main ( ) { ex :: pow ( ) ; }"),
    ]);
    let out = bundle(lib, &main, 1).unwrap();
    assert_eq!(count(&out, "pub fn pow"), 1);
    assert!(out.contains("fn main ( ) { pow ( ) ; }"));
    assert!(!out.contains("ex ::"));
}

#[test]
fn root_before_group_or_glob_is_dropped() {
    let lib = library(&[], vec![]);
    let main = unit(vec![
        item(DeclKind::Other, "", "mod m { use cp_lib :: * ; use cp_lib :: { a , b } ; use cp_lib :: x :: { y } ; }"),
        func("main", "fn main ( ) { }"),
    ]);
    let out = bundle(lib, &main, 1).unwrap();
    assert!(!out.contains("cp_lib"));
    assert!(out.contains("mod m { use * ; use { a , b } ; use x :: { y } ; }"));
}

#[test]
fn generic_arguments_do_not_end_a_path() {
    let aliases = vec!["exponential".to_string()];
    let t = toks("exponential :: Foo :: < T > :: new ( )");
    assert_eq!(strip_paths(&t, "cp_lib", &aliases), toks("new ( )"));
    let u = toks("cp_lib :: f :: < cp_lib :: a :: X > ( )");
    assert_eq!(strip_paths(&u, "cp_lib", &aliases), toks("f :: < X > ( )"));
    let v = toks("Vec :: < u8 > :: new ( )");
    assert_eq!(strip_paths(&v, "cp_lib", &aliases), v);
}

#[test]
fn symbol_import_resolves_to_its_module() {
    let lib = exponential_library("pub fn pow ( ) { }");
    let main = unit(vec![
        import(&["cp_lib", "algorithms", "exponential", "Pow"], "use cp_lib :: algorithms :: exponential :: Pow ;"),
        func("main", "fn main ( ) { Pow :: new ( ) ; }"),
    ]);
    let out = bundle(lib, &main, 1).unwrap();
    assert_eq!(count(&out, "pub fn pow"), 1);
    assert!(out.contains("Pow :: new ( )"));
}

#[test]
fn glob_import_inlines_the_module() {
    let lib = exponential_library("pub fn pow ( ) { }");
    let main = unit(vec![
        Entry::Import(
            UseTree::Path(
                "cp_lib".to_string(),
                Box::new(UseTree::Path(
                    "algorithms".to_string(),
                    Box::new(UseTree::Path("exponential".to_string(), Box::new(UseTree::Glob))),
                )),
            ),
            toks("use cp_lib :: algorithms :: exponential :: * ;"),
        ),
        func("main", "fn main ( ) { pow ( ) ; }"),
    ]);
    let out = bundle(lib, &main, 1).unwrap();
    assert_eq!(count(&out, "pub fn pow"), 1);
}

#[test]
fn alias_call_loses_its_alias() {
    let t = toks("exponential :: pow ( a , b )");
    let r = strip_paths(&t, "cp_lib", &vec!["exponential".to_string()]);
    assert_eq!(r, toks("pow ( a , b )"));
}

#[test]
fn qualified_call_loses_its_path() {
    let t = toks("x = :: cp_lib :: algorithms :: exponential :: pow_mod ( a , b , m )");
    let r = strip_paths(&t, "cp_lib", &vec![]);
    assert_eq!(r, toks("x = pow_mod ( a , b , m )"));
}

#[test]
fn uppercase_and_single_segment_paths_stay() {
    let t = toks("Scanner :: new ( ) ; exponential ; std :: cmp :: max ( )");
    let r = strip_paths(&t, "cp_lib", &vec!["exponential".to_string()]);
    assert_eq!(r, t);
}

#[test]
fn library_refs_are_found_in_order() {
    let t = toks("a :: b ( ) ; cp_lib :: x :: y ( ) ; cp_lib ; z :: cp_lib :: w");
    let r = library_refs(&t, "cp_lib");
    assert_eq!(r, vec![vec!["cp_lib".to_string(), "x".to_string(), "y".to_string()]]);
}

#[test]
fn same_input_gives_same_bundle_but_for_the_stamp() {
    let make = || {
        unit(vec![
            import(&["std", "cmp", "max"], "use std :: cmp :: max ;"),
            import(&["cp_lib", "algorithms", "exponential"], "use cp_lib :: algorithms :: exponential ;"),
            func("main", "fn main ( ) { exponential :: pow ( ) ; }"),
        ])
    };
    let a = bundle(exponential_library("pub fn pow ( ) { }"), &make(), 100).unwrap();
    let b = bundle(exponential_library("pub fn pow ( ) { }"), &make(), 100).unwrap();
    let c = bundle(exponential_library("pub fn pow ( ) { }"), &make(), 7).unwrap();
    assert_eq!(a, b);
    assert_eq!(a.replace("Generated at: 100", "Generated at: 7"), c);
}

#[test]
fn bundler_gathers_then_renders() {
    let mut b = AstBundler::new(exponential_library("pub fn pow ( ) { }"));
    let main = unit(vec![func("main", "fn main ( ) { cp_lib :: algorithms :: exponential :: pow ( ) ; }")]);
    b.process_file_ast(&main).unwrap();
    let out = b.generate_bundled_code(3);
    assert!(out.contains("// Generated at: 3\n"));
    assert!(out.contains("pub fn pow ( ) { }\n\n// ==================== Main Code ===================="));
}
