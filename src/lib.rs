//! Bundles a program that uses a personal library into one source file:
//! library files are found by their import paths, inlined once each, and
//! every path into the library is flattened.
use vstd::prelude::*;

pub mod ast_bundler;
pub mod exponential;
pub mod file_resolver;
pub mod filename_generator;
pub mod laws;
pub mod naming;
pub mod scanner;
pub mod text;
pub mod tokens;
pub mod use_tree;

verus! {

/// Where a bundling run reads and writes.
#[derive(Debug)]
pub struct BundlerConfig {
    /// The entry file.
    pub main_file: String,
    /// The root directory of the library.
    pub lib_root: String,
    /// The directory the bundle is written to.
    pub output_dir: String,
    pub create_versioned_copy: bool,
}

impl Default for BundlerConfig {
    fn default() -> (r: Self)
        ensures
            r.main_file@ == "src/main.rs"@,
            r.lib_root@ == "cp-lib/src"@,
            r.output_dir@ == "bundled"@,
            r.create_versioned_copy,
    {
        BundlerConfig {
            main_file: String::from_str("src/main.rs"),
            lib_root: String::from_str("cp-lib/src"),
            output_dir: String::from_str("bundled"),
            create_versioned_copy: true,
        }
    }
}

/// The namespace root that marks a path as the library's.
pub const LIBRARY_ROOT: &'static str = "cp_lib";

} // verus!
