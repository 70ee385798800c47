use bundler_lib::ast_bundler::module_candidates;
use bundler_lib::exponential::binpow;
use bundler_lib::file_resolver::FileResolver;
use bundler_lib::use_tree::{collect_use_paths, UseTree};
use bundler_lib::BundlerConfig;

fn strings(v: &[&str]) -> Vec<String> {
    v.iter().map(|s| s.to_string()).collect()
}

#[test]
fn test_file_resolver() {
    let resolver = FileResolver::new("lib", strings(&["lib.rs", "io/mod.rs", "io/scanner.rs"]));
    assert!(resolver.resolve_module_file("io/scanner.rs").is_some());
    assert!(resolver.resolve_module_file("io/mod.rs").is_some());
    assert!(resolver.resolve_module_file("nonexistent.rs").is_none());
}

#[test]
fn resolver_adds_extension_and_falls_back_to_directory() {
    let resolver = FileResolver::new("root/", strings(&["io/scanner.rs", "graph/mod.rs", "notes.txt"]));
    assert_eq!(resolver.resolve_module_file("io/scanner"), Some("root/io/scanner.rs".to_string()));
    assert_eq!(resolver.resolve_module_file("graph.rs"), Some("root/graph/mod.rs".to_string()));
    assert_eq!(resolver.resolve_module_file("notes.txt"), Some("root/notes.txt".to_string()));
    assert_eq!(resolver.list_all_files(), strings(&["root/io/scanner.rs", "root/graph/mod.rs"]));
}

#[test]
fn candidates_try_module_then_item() {
    let segs = strings(&["cp_lib", "algorithms", "exponential", "pow_mod"]);
    assert_eq!(
        module_candidates(&segs),
        strings(&[
            "algorithms/exponential/pow_mod.rs",
            "algorithms/exponential/pow_mod/mod.rs",
            "algorithms/exponential.rs",
            "algorithms/exponential/mod.rs",
        ])
    );
    assert_eq!(
        module_candidates(&strings(&["cp_lib", "io", "*"])),
        strings(&["io.rs", "io/mod.rs"])
    );
    assert!(module_candidates(&strings(&["cp_lib", "*"])).is_empty());
}

#[test]
fn use_tree_paths_are_flattened() {
    let tree = UseTree::Path(
        "std".to_string(),
        Box::new(UseTree::Group(vec![
            UseTree::Name("fmt".to_string()),
            UseTree::Rename("io".to_string(), "stdio".to_string()),
            UseTree::Path("collections".to_string(), Box::new(UseTree::Glob)),
        ])),
    );
    let mut out = Vec::new();
    collect_use_paths(&Vec::new(), &tree, &mut out);
    assert_eq!(
        out,
        vec![strings(&["std", "fmt"]), strings(&["std", "io"]), strings(&["std", "collections", "*"])]
    );
}

#[test]
fn binpow_values() {
    assert_eq!(binpow(2, 10), 1024);
    assert_eq!(binpow(3, 0), 1);
    assert_eq!(binpow(0, 5), 0);
    assert_eq!(binpow(0, 0), 1);
    assert_eq!(binpow(7, 1), 7);
    assert_eq!(binpow(2, 63), 1u64 << 63);
    assert_eq!(binpow(4294967296, 1), 4294967296);
}

#[test]
fn config_defaults() {
    let c = BundlerConfig::default();
    assert_eq!(c.main_file, "src/main.rs");
    assert_eq!(c.lib_root, "cp-lib/src");
    assert_eq!(c.output_dir, "bundled");
    assert!(c.create_versioned_copy);
}
