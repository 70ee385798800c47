use vstd::prelude::*;
use crate::file_resolver::{FileResolver, resolved};
use crate::tokens::{Tok, lib_refs, rendered, rewritten, same_text, tok_name};
use crate::use_tree::{
    UseTree, collect_use_names, collect_use_paths, glob_segment, lemma_names_match_paths, use_names, use_paths,
};
use crate::tokens::{holds_name, library_refs};
use crate::text::{chars_of, push_char};
use crate::tokens::{render_tokens, strip_paths};

verus! {

/// What a top-level declaration is, as far as bundling cares.
#[derive(Debug, Clone, Copy, PartialEq, Eq, Structural)]
pub enum DeclKind {
    Function,
    Const,
    Other,
}

/// A top-level declaration other than an import: its kind, its name
/// (empty where it has none) and its tokens.
#[derive(Debug)]
pub struct Decl {
    pub kind: DeclKind,
    pub name: String,
    pub tokens: Vec<Tok>,
}

pub ghost struct DeclView {
    pub kind: DeclKind,
    pub name: Seq<char>,
    pub tokens: Seq<Tok>,
}

impl DeepView for Decl {
    type V = DeclView;

    open spec fn deep_view(&self) -> DeclView {
        DeclView { kind: self.kind, name: self.name@, tokens: self.tokens@ }
    }
}

/// One top-level declaration of a source file.
#[derive(Debug)]
pub enum Entry {
    /// An import: its tree and its tokens.
    Import(UseTree, Vec<Tok>),
    /// Any other declaration.
    Item(Decl),
}

/// The value a constant is given, where it is a literal.
#[derive(Debug)]
pub enum LitValue {
    /// A string literal, as the string it denotes.
    Str(String),
    /// An integer literal, as its decimal digits.
    Int(String),
    /// Anything else.
    Other,
}

/// A top-level constant and its value.
#[derive(Debug)]
pub struct ConstItem {
    pub name: String,
    pub value: LitValue,
}

/// A parsed source file: its top-level declarations in order, and its
/// top-level constants with their values.
#[derive(Debug)]
pub struct SourceUnit {
    pub entries: Vec<Entry>,
    pub consts: Vec<ConstItem>,
}

/// What became of a library file when it was read and parsed.
#[derive(Debug)]
pub enum Loaded {
    Parsed(SourceUnit),
    /// It could not be read or parsed; the message says why.
    Failed(String),
}

/// A library file, by the path that the resolver gives for it.
#[derive(Debug)]
pub struct Module {
    pub path: String,
    pub loaded: Loaded,
}

/// A library file that had to be inlined could not be read or parsed.
#[derive(Debug, PartialEq, Eq)]
pub struct BundleError {
    pub path: String,
    pub message: String,
}

/// The names of the constants that carry a problem's title or identifier.
pub open spec fn is_metadata_name(n: Seq<char>) -> bool {
    n == "_PROBLEM"@ || n == "ID"@ || n == "_ID"@
}

/// The program's entry point: the function `main`.
pub open spec fn is_entry(d: DeclView) -> bool {
    d.kind == DeclKind::Function && d.name == "main"@
}

pub open spec fn is_metadata(d: DeclView) -> bool {
    d.kind == DeclKind::Const && is_metadata_name(d.name)
}

/// The segments of a path, joined by `/`.
pub open spec fn slash_joined(parts: Seq<Seq<char>>) -> Seq<char>
    decreases parts.len(),
{
    if parts.len() == 0 {
        Seq::empty()
    } else if parts.len() == 1 {
        parts[0]
    } else {
        slash_joined(parts.drop_last()) + seq!['/'] + parts.last()
    }
}

/// `segs` without a trailing `*`.
pub open spec fn without_glob(segs: Seq<Seq<char>>) -> Seq<Seq<char>> {
    if segs.len() > 0 && segs.last() == glob_segment() {
        segs.drop_last()
    } else {
        segs
    }
}

/// The files that a library path may name, in the order they are tried:
/// the segments after the root as a module file and as a module directory,
/// then, for three segments or more, the same without the last segment
/// (which then names an item of the module).
pub open spec fn candidates(segs: Seq<Seq<char>>) -> Seq<Seq<char>> {
    let s = without_glob(segs);
    if s.len() < 2 {
        Seq::empty()
    } else {
        let full = slash_joined(s.subrange(1, s.len() as int));
        let whole = seq![full + ".rs"@, full + "/mod.rs"@];
        if s.len() >= 3 {
            let part = slash_joined(s.subrange(1, s.len() - 1));
            whole + seq![part + ".rs"@, part + "/mod.rs"@]
        } else {
            whole
        }
    }
}

/// The first of `cands` from index `k` on that names a file.
pub open spec fn first_resolved(root: Seq<char>, files: Seq<Seq<char>>, cands: Seq<Seq<char>>, k: int) -> Option<Seq<char>>
    decreases cands.len() - k,
{
    if k < 0 || k >= cands.len() {
        None
    } else {
        match resolved(root, files, cands[k]) {
            Some(p) => Some(p),
            None => first_resolved(root, files, cands, k + 1),
        }
    }
}

/// The library file, if any, that was loaded for `p`.
pub open spec fn lookup(mods: Seq<Module>, p: Seq<char>) -> Option<Loaded>
    decreases mods.len(),
{
    if mods.len() == 0 {
        None
    } else if mods[0].path@ == p {
        Some(mods[0].loaded)
    } else {
        lookup(mods.subrange(1, mods.len() as int), p)
    }
}

/// The library being bundled from: its namespace root, its file index and
/// its files as loaded.
pub struct Library {
    pub root: String,
    pub resolver: FileResolver,
    pub modules: Vec<Module>,
}

/// What has been gathered so far.
pub ghost struct Gathered {
    /// Declarations to emit, in order of discovery, not yet rewritten.
    pub items: Seq<DeclView>,
    /// Library files already inlined.
    pub visited: Seq<Seq<char>>,
    /// Standard imports to keep, each once.
    pub imports: Seq<Seq<Tok>>,
    /// Names that stand for inlined modules.
    pub aliases: Seq<Seq<char>>,
}

pub type Failure = (Seq<char>, Seq<char>);

pub open spec fn resolve_import(lib: Library, segs: Seq<Seq<char>>) -> Option<Seq<char>> {
    first_resolved(lib.resolver.root(), lib.resolver.files(), candidates(segs), 0)
}

/// Inlines the library file that `segs` names, unless it names none, or one
/// already inlined. `fuel` is how many files deep inlining may still go; a
/// bundle starts it at the number of library files.
pub open spec fn inline_module(lib: Library, g: Gathered, segs: Seq<Seq<char>>, fuel: nat) -> Result<Gathered, Failure>
    decreases fuel, 0nat, 0nat,
{
    match resolve_import(lib, segs) {
        None => Ok(g),
        Some(p) => {
            if g.visited.contains(p) || fuel == 0 {
                Ok(g)
            } else {
                match lookup(lib.modules@, p) {
                    None => Ok(g),
                    Some(Loaded::Failed(msg)) => Err((p, msg@)),
                    Some(Loaded::Parsed(u)) => gather_entries(
                        lib,
                        Gathered { visited: g.visited.push(p), ..g },
                        u.entries@,
                        0,
                        (fuel - 1) as nat,
                    ),
                }
            }
        },
    }
}

/// Inlines, in order, the library files that `refs` from index `j` on name.
pub open spec fn inline_all(lib: Library, g: Gathered, refs: Seq<Seq<Seq<char>>>, j: int, fuel: nat) -> Result<Gathered, Failure>
    decreases fuel, 1nat, refs.len() - j,
{
    if j < 0 || j >= refs.len() {
        Ok(g)
    } else {
        match inline_module(lib, g, refs[j], fuel) {
            Ok(g2) => inline_all(lib, g2, refs, j + 1, fuel),
            Err(e) => Err(e),
        }
    }
}

/// A local name that stands for a module: it starts with a lowercase ASCII
/// letter (so it is not `*`).
pub open spec fn names_module(name: Seq<char>) -> bool {
    name.len() > 0 && 'a' <= name[0] <= 'z'
}

/// A path that starts here names the current crate, not an outside one.
pub open spec fn is_local_root(seg: Seq<char>) -> bool {
    seg == "crate"@ || seg == "self"@ || seg == "super"@
}

/// The import's tokens name the standard `io` module, which the bundle's
/// own header already imports.
pub open spec fn mentions_std_io(t: Seq<Tok>) -> bool {
    exists|k: int| std_io_at(t, k)
}

/// `std :: io` stands at index `k`.
pub open spec fn std_io_at(t: Seq<Tok>, k: int) -> bool {
    &&& 0 <= k && k + 2 < t.len()
    &&& t[k] is Ident && tok_name(t[k]) == "std"@
    &&& t[k + 1] is Sep
    &&& t[k + 2] is Ident && tok_name(t[k + 2]) == "io"@
}

/// Two tokens are spelled alike.
pub open spec fn tok_eqv(a: Tok, b: Tok) -> bool {
    match (a, b) {
        (Tok::Ident(x), Tok::Ident(y)) => x@ == y@,
        (Tok::Sep, Tok::Sep) => true,
        (Tok::Punct(x, j), Tok::Punct(y, k)) => x@ == y@ && j == k,
        (Tok::Literal(x), Tok::Literal(y)) => x@ == y@,
        _ => false,
    }
}

/// Two token sequences are spelled alike.
pub open spec fn toks_eqv(a: Seq<Tok>, b: Seq<Tok>) -> bool {
    a.len() == b.len() && forall|k: int| 0 <= k < a.len() ==> tok_eqv(#[trigger] a[k], b[k])
}

/// `list` holds a token sequence spelled like `t`.
pub open spec fn holds_tokens(list: Seq<Seq<Tok>>, t: Seq<Tok>) -> bool {
    exists|i: int| 0 <= i < list.len() && toks_eqv(#[trigger] list[i], t)
}

/// Records one path of an import, `names[j]` being the local name it is
/// bound to: a library path makes that name an alias when it names a
/// module, and inlines the file it names; a path of another crate keeps the
/// import's tokens, once, unless they name `std::io`; paths within the
/// current crate are dropped.
pub open spec fn gather_import_paths(
    lib: Library,
    g: Gathered,
    paths: Seq<Seq<Seq<char>>>,
    names: Seq<Seq<char>>,
    toks: Seq<Tok>,
    j: int,
    fuel: nat,
) -> Result<Gathered, Failure>
    decreases fuel, 1nat, paths.len() - j,
{
    if j < 0 || j >= paths.len() {
        Ok(g)
    } else {
        let path = paths[j];
        if path.len() >= 2 && path[0] == lib.root@ {
            let g1 = if names_module(names[j]) && !g.aliases.contains(names[j]) {
                Gathered { aliases: g.aliases.push(names[j]), ..g }
            } else {
                g
            };
            match inline_module(lib, g1, path, fuel) {
                Ok(g2) => gather_import_paths(lib, g2, paths, names, toks, j + 1, fuel),
                Err(e) => Err(e),
            }
        } else if path.len() >= 2 && !is_local_root(path[0]) {
            let g1 = if mentions_std_io(toks) || holds_tokens(g.imports, toks) {
                g
            } else {
                Gathered { imports: g.imports.push(toks), ..g }
            };
            gather_import_paths(lib, g1, paths, names, toks, j + 1, fuel)
        } else {
            gather_import_paths(lib, g, paths, names, toks, j + 1, fuel)
        }
    }
}

/// Gathers one declaration: an import is recorded path by path; a metadata
/// constant is left out; any other declaration first has the library files
/// its paths name inlined, and is then kept.
pub open spec fn gather_entry(lib: Library, g: Gathered, e: Entry, fuel: nat) -> Result<Gathered, Failure>
    decreases fuel, 2nat, 0nat,
{
    match e {
        Entry::Import(tree, toks) => gather_import_paths(
            lib,
            g,
            use_paths(Seq::empty(), tree),
            use_names(tree),
            toks@,
            0,
            fuel,
        ),
        Entry::Item(d) => {
            if is_metadata(d.deep_view()) {
                Ok(g)
            } else {
                match inline_all(lib, g, lib_refs(d.tokens@, 0, lib.root@), 0, fuel) {
                    Ok(g2) => Ok(Gathered { items: g2.items.push(d.deep_view()), ..g2 }),
                    Err(e) => Err(e),
                }
            }
        },
    }
}

/// Gathers the declarations `es` from index `k` on, in order, stopping at
/// the first failure.
pub open spec fn gather_entries(lib: Library, g: Gathered, es: Seq<Entry>, k: int, fuel: nat) -> Result<Gathered, Failure>
    decreases fuel, 3nat, es.len() - k,
{
    if k < 0 || k >= es.len() {
        Ok(g)
    } else {
        match gather_entry(lib, g, es[k], fuel) {
            Ok(g2) => gather_entries(lib, g2, es, k + 1, fuel),
            Err(e) => Err(e),
        }
    }
}

/// What has been gathered, as the bundler holds it.
struct State {
    bundled_items: Vec<Decl>,
    processed_modules: Vec<String>,
    use_statements: Vec<Vec<Tok>>,
    cp_lib_aliases: Vec<String>,
}

impl View for State {
    type V = Gathered;

    closed spec fn view(&self) -> Gathered {
        Gathered {
            items: self.bundled_items.deep_view(),
            visited: self.processed_modules.deep_view(),
            imports: Seq::new(self.use_statements@.len(), |i: int| self.use_statements@[i]@),
            aliases: self.cp_lib_aliases.deep_view(),
        }
    }
}

/// The result of a gathering step as the spec functions give it.
pub open spec fn outcome(r: Result<(), BundleError>, g: Gathered) -> Result<Gathered, Failure> {
    match r {
        Ok(_) => Ok(g),
        Err(e) => Err((e.path@, e.message@)),
    }
}

/// A copy of the tokens.
pub fn copy_tokens(t: &Vec<Tok>) -> (r: Vec<Tok>)
    ensures
        r@ == t@,
{
    let mut r: Vec<Tok> = Vec::new();
    let mut i: usize = 0;
    while i < t.len()
        invariant
            i <= t.len(),
            r@ == t@.subrange(0, i as int),
        decreases t.len() - i,
    {
        r.push(crate::tokens::clone_tok(&t[i]));
        proof {
            assert(r@ =~= t@.subrange(0, i + 1));
        }
        i = i + 1;
    }
    proof {
        assert(r@ =~= t@);
    }
    r
}

fn copy_decl(d: &Decl) -> (r: Decl)
    ensures
        r.deep_view() == d.deep_view(),
{
    Decl { kind: d.kind, name: d.name.clone(), tokens: copy_tokens(&d.tokens) }
}

fn same_tok(a: &Tok, b: &Tok) -> (r: bool)
    ensures
        r == tok_eqv(*a, *b),
{
    match (a, b) {
        (Tok::Ident(x), Tok::Ident(y)) => same_text(x.as_str(), y.as_str()),
        (Tok::Sep, Tok::Sep) => true,
        (Tok::Punct(x, j), Tok::Punct(y, k)) => same_text(x.as_str(), y.as_str()) && *j == *k,
        (Tok::Literal(x), Tok::Literal(y)) => same_text(x.as_str(), y.as_str()),
        _ => false,
    }
}

fn same_tokens(a: &Vec<Tok>, b: &Vec<Tok>) -> (r: bool)
    ensures
        r == toks_eqv(a@, b@),
{
    if a.len() != b.len() {
        return false;
    }
    let mut k: usize = 0;
    while k < a.len()
        invariant
            a@.len() == b@.len(),
            k <= a.len(),
            forall|m: int| 0 <= m < k ==> tok_eqv(#[trigger] a@[m], b@[m]),
        decreases a.len() - k,
    {
        if !same_tok(&a[k], &b[k]) {
            return false;
        }
        k = k + 1;
    }
    true
}

fn has_tokens(list: &Vec<Vec<Tok>>, t: &Vec<Tok>) -> (r: bool)
    ensures
        r == holds_tokens(Seq::new(list@.len(), |i: int| list@[i]@), t@),
{
    let ghost l = Seq::new(list@.len(), |i: int| list@[i]@);
    let mut k: usize = 0;
    while k < list.len()
        invariant
            k <= list.len(),
            l == Seq::new(list@.len(), |i: int| list@[i]@),
            forall|m: int| 0 <= m < k ==> !toks_eqv(#[trigger] l[m], t@),
        decreases list.len() - k,
    {
        if same_tokens(&list[k], t) {
            assert(toks_eqv(l[k as int], t@));
            return true;
        }
        k = k + 1;
    }
    false
}

fn is_std_io(t: &Vec<Tok>) -> (r: bool)
    ensures
        r == mentions_std_io(t@),
{
    proof {
        reveal_strlit("std");
        reveal_strlit("io");
    }
    let mut k: usize = 0;
    while k < t.len() && t.len() - k > 2
        invariant
            forall|m: int| 0 <= m < k ==> !std_io_at(t@, m),
        decreases t.len() - k,
    {
        let hit = match (&t[k], &t[k + 1], &t[k + 2]) {
            (Tok::Ident(a), Tok::Sep, Tok::Ident(b)) => same_text(a.as_str(), "std")
                && same_text(b.as_str(), "io"),
            _ => false,
        };
        if hit {
            assert(std_io_at(t@, k as int));
            return true;
        }
        k = k + 1;
    }
    assert forall|m: int| !std_io_at(t@, m) by {
        if 0 <= m < k {
        }
    }
    false
}

/// The segments `parts[from..to]`, joined by `/`.
fn slash_join(parts: &Vec<String>, from: usize, to: usize) -> (r: String)
    requires
        from <= to <= parts@.len(),
    ensures
        r@ == slash_joined(parts.deep_view().subrange(from as int, to as int)),
{
    if from == to {
        return String::new();
    }
    let mut r = parts[from].clone();
    let mut m: usize = from + 1;
    proof {
        reveal_strlit("/");
        assert("/"@ =~= seq!['/']);
    }
    while m < to
        invariant
            from < m <= to <= parts@.len(),
            r@ == slash_joined(parts.deep_view().subrange(from as int, m as int)),
            "/"@ == seq!['/'],
        decreases to - m,
    {
        proof {
            let sub = parts.deep_view().subrange(from as int, m + 1);
            assert(sub.drop_last() =~= parts.deep_view().subrange(from as int, m as int));
        }
        r.append("/");
        r.append(parts[m].as_str());
        m = m + 1;
    }
    proof {
        assert(parts.deep_view().subrange(from as int, from + 1) =~= seq![parts.deep_view()[from as int]]);
    }
    r
}

fn with_suffix(base: &String, suffix: &str) -> (r: String)
    ensures
        r@ == base@ + suffix@,
{
    let mut r = base.clone();
    r.append(suffix);
    r
}

/// The files that the library path `segs` may name, in the order they are
/// tried.
pub fn module_candidates(segs: &Vec<String>) -> (r: Vec<String>)
    ensures
        r.deep_view() == candidates(segs.deep_view()),
{
    proof {
        reveal_strlit("*");
        assert("*"@ =~= glob_segment());
    }
    let n0 = segs.len();
    let n: usize = if n0 > 0 && same_text(segs[n0 - 1].as_str(), "*") {
        n0 - 1
    } else {
        n0
    };
    let ghost s = without_glob(segs.deep_view());
    proof {
        assert(s =~= segs.deep_view().subrange(0, n as int));
    }
    let mut r: Vec<String> = Vec::new();
    if n < 2 {
        proof {
            assert(r.deep_view() =~= candidates(segs.deep_view()));
        }
        return r;
    }
    let full = slash_join(segs, 1, n);
    proof {
        assert(s.subrange(1, s.len() as int) =~= segs.deep_view().subrange(1, n as int));
    }
    r.push(with_suffix(&full, ".rs"));
    r.push(with_suffix(&full, "/mod.rs"));
    if n >= 3 {
        let part = slash_join(segs, 1, n - 1);
        proof {
            assert(s.subrange(1, s.len() - 1) =~= segs.deep_view().subrange(1, n - 1));
        }
        r.push(with_suffix(&part, ".rs"));
        r.push(with_suffix(&part, "/mod.rs"));
    }
    proof {
        assert(r.deep_view() =~= candidates(segs.deep_view()));
    }
    r
}

/// The library file that `segs` names: the first candidate that resolves.
fn resolve_import_exec(lib: &Library, segs: &Vec<String>) -> (r: Option<String>)
    ensures
        crate::file_resolver::opt_view(r) == resolve_import(*lib, segs.deep_view()),
{
    let cands = module_candidates(segs);
    let ghost cv = cands.deep_view();
    let mut k: usize = 0;
    while k < cands.len()
        invariant
            k <= cands@.len(),
            cv == cands.deep_view(),
            cv == candidates(segs.deep_view()),
            first_resolved(lib.resolver.root(), lib.resolver.files(), cv, 0)
                == first_resolved(lib.resolver.root(), lib.resolver.files(), cv, k as int),
        decreases cands.len() - k,
    {
        let found = lib.resolver.resolve_module_file(cands[k].as_str());
        match found {
            Some(p) => {
                return Some(p);
            },
            None => {},
        }
        k = k + 1;
    }
    None
}

/// Where in `mods` the file loaded for `p` stands.
fn find_module(mods: &Vec<Module>, p: &str) -> (r: Option<usize>)
    ensures
        match r {
            Some(k) => k < mods@.len() && lookup(mods@, p@) == Some(mods@[k as int].loaded),
            None => lookup(mods@, p@) is None,
        },
{
    let mut k: usize = 0;
    proof {
        assert(mods@.subrange(0, mods@.len() as int) =~= mods@);
    }
    while k < mods.len()
        invariant
            k <= mods@.len(),
            lookup(mods@, p@) == lookup(mods@.subrange(k as int, mods@.len() as int), p@),
        decreases mods.len() - k,
    {
        proof {
            let rest = mods@.subrange(k as int, mods@.len() as int);
            assert(rest.subrange(1, rest.len() as int) =~= mods@.subrange(k + 1, mods@.len() as int));
        }
        if same_text(mods[k].path.as_str(), p) {
            return Some(k);
        }
        k = k + 1;
    }
    None
}

fn names_module_exec(name: &str) -> (r: bool)
    ensures
        r == names_module(name@),
{
    let cs = chars_of(name);
    cs.len() > 0 && 'a' <= cs[0] && cs[0] <= 'z'
}

fn is_local_root_exec(seg: &str) -> (r: bool)
    ensures
        r == is_local_root(seg@),
{
    same_text(seg, "crate") || same_text(seg, "self") || same_text(seg, "super")
}

fn is_metadata_exec(d: &Decl) -> (r: bool)
    ensures
        r == is_metadata(d.deep_view()),
{
    match d.kind {
        DeclKind::Const => {
            let n = d.name.as_str();
            same_text(n, "_PROBLEM") || same_text(n, "ID") || same_text(n, "_ID")
        },
        _ => false,
    }
}

fn inline_module_exec(lib: &Library, st: &mut State, segs: &Vec<String>, fuel: usize) -> (r: Result<(), BundleError>)
    ensures
        outcome(r, final(st)@) == inline_module(*lib, old(st)@, segs.deep_view(), fuel as nat),
    decreases fuel, 0nat, 0nat,
{
    match resolve_import_exec(lib, segs) {
        None => Ok(()),
        Some(p) => {
            if fuel == 0 || holds_name(&st.processed_modules, p.as_str()) {
                return Ok(());
            }
            match find_module(&lib.modules, p.as_str()) {
                None => Ok(()),
                Some(k) => match &lib.modules[k].loaded {
                    Loaded::Failed(msg) => Err(BundleError { path: p, message: msg.clone() }),
                    Loaded::Parsed(u) => {
                        let ghost g = st@;
                        st.processed_modules.push(p);
                        proof {
                            assert(st@.visited =~= g.visited.push(p@));
                            assert(st@.imports =~= g.imports);
                            assert(st@ == Gathered { visited: g.visited.push(p@), ..g });
                        }
                        gather_entries_exec(lib, st, &u.entries, fuel - 1)
                    },
                },
            }
        },
    }
}

fn inline_all_exec(lib: &Library, st: &mut State, refs: &Vec<Vec<String>>, fuel: usize) -> (r: Result<(), BundleError>)
    ensures
        outcome(r, final(st)@) == inline_all(*lib, old(st)@, refs.deep_view(), 0, fuel as nat),
    decreases fuel, 1nat, 0nat,
{
    let ghost g0 = st@;
    let mut j: usize = 0;
    while j < refs.len()
        invariant
            j <= refs@.len(),
            g0 == old(st)@,
            inline_all(*lib, g0, refs.deep_view(), 0, fuel as nat) == inline_all(*lib, st@, refs.deep_view(), j as int, fuel as nat),
        decreases refs.len() - j,
    {
        let ghost before = st@;
        assert(refs[j as int].deep_view() == refs.deep_view()[j as int]);
        match inline_module_exec(lib, st, &refs[j], fuel) {
            Err(e) => {
                assert(inline_all(*lib, before, refs.deep_view(), j as int, fuel as nat) == Err::<Gathered, Failure>((e.path@, e.message@)));
                return Err(e);
            },
            Ok(()) => {},
        }
        j = j + 1;
    }
    Ok(())
}

fn gather_import_exec(
    lib: &Library,
    st: &mut State,
    paths: &Vec<Vec<String>>,
    names: &Vec<String>,
    toks: &Vec<Tok>,
    fuel: usize,
) -> (r: Result<(), BundleError>)
    requires
        names@.len() == paths@.len(),
    ensures
        outcome(r, final(st)@) == gather_import_paths(
            *lib,
            old(st)@,
            paths.deep_view(),
            names.deep_view(),
            toks@,
            0,
            fuel as nat,
        ),
    decreases fuel, 1nat, 0nat,
{
    proof {
        reveal_strlit("std");
    }
    let ghost g0 = st@;
    let ghost pv = paths.deep_view();
    let ghost nv = names.deep_view();
    let mut j: usize = 0;
    while j < paths.len()
        invariant
            j <= paths@.len(),
            names@.len() == paths@.len(),
            g0 == old(st)@,
            pv == paths.deep_view(),
            nv == names.deep_view(),
            gather_import_paths(*lib, g0, pv, nv, toks@, 0, fuel as nat)
                == gather_import_paths(*lib, st@, pv, nv, toks@, j as int, fuel as nat),
        decreases paths.len() - j,
    {
        let path = &paths[j];
        let ghost g = st@;
        assert(path.deep_view() == pv[j as int]);
        if path.len() >= 2 && same_text(path[0].as_str(), lib.root.as_str()) {
            let name = &names[j];
            if names_module_exec(name.as_str()) && !holds_name(&st.cp_lib_aliases, name.as_str()) {
                st.cp_lib_aliases.push(name.clone());
                proof {
                    assert(st@.aliases =~= g.aliases.push(nv[j as int]));
                    assert(st@.imports =~= g.imports);
                    assert(st@ == Gathered { aliases: g.aliases.push(nv[j as int]), ..g });
                }
            }
            let ghost mid = st@;
            match inline_module_exec(lib, st, path, fuel) {
                Err(e) => {
                    assert(inline_module(*lib, mid, pv[j as int], fuel as nat) == Err::<Gathered, Failure>((e.path@, e.message@)));
                    assert(gather_import_paths(*lib, g, pv, nv, toks@, j as int, fuel as nat) == Err::<Gathered, Failure>((e.path@, e.message@)));
                    return Err(e);
                },
                Ok(()) => {},
            }
        } else if path.len() >= 2 && !is_local_root_exec(path[0].as_str()) {
            if !is_std_io(toks) && !has_tokens(&st.use_statements, toks) {
                st.use_statements.push(copy_tokens(toks));
                proof {
                    assert(st@.imports =~= g.imports.push(toks@));
                    assert(st@ == Gathered { imports: g.imports.push(toks@), ..g });
                }
            }
        }
        j = j + 1;
    }
    Ok(())
}

fn gather_entry_exec(lib: &Library, st: &mut State, e: &Entry, fuel: usize) -> (r: Result<(), BundleError>)
    ensures
        outcome(r, final(st)@) == gather_entry(*lib, old(st)@, *e, fuel as nat),
    decreases fuel, 2nat, 0nat,
{
    match e {
        Entry::Import(tree, toks) => {
            let empty: Vec<String> = Vec::new();
            let mut paths: Vec<Vec<String>> = Vec::new();
            collect_use_paths(&empty, tree, &mut paths);
            let mut names: Vec<String> = Vec::new();
            collect_use_names(tree, &mut names);
            proof {
                assert(empty.deep_view() =~= Seq::<Seq<char>>::empty());
                assert(paths.deep_view() =~= use_paths(Seq::empty(), *tree));
                assert(names.deep_view() =~= use_names(*tree));
                lemma_names_match_paths(Seq::empty(), *tree);
            }
            gather_import_exec(lib, st, &paths, &names, toks, fuel)
        },
        Entry::Item(d) => {
            if is_metadata_exec(d) {
                return Ok(());
            }
            let refs = library_refs(&d.tokens, lib.root.as_str());
            match inline_all_exec(lib, st, &refs, fuel) {
                Err(e) => Err(e),
                Ok(()) => {
                    let ghost g = st@;
                    st.bundled_items.push(copy_decl(d));
                    proof {
                        assert(st@.items =~= g.items.push(d.deep_view()));
                        assert(st@.imports =~= g.imports);
                        assert(st@ == Gathered { items: g.items.push(d.deep_view()), ..g });
                    }
                    Ok(())
                },
            }
        },
    }
}

fn gather_entries_exec(lib: &Library, st: &mut State, es: &Vec<Entry>, fuel: usize) -> (r: Result<(), BundleError>)
    ensures
        outcome(r, final(st)@) == gather_entries(*lib, old(st)@, es@, 0, fuel as nat),
    decreases fuel, 3nat, 0nat,
{
    let ghost g0 = st@;
    let mut k: usize = 0;
    while k < es.len()
        invariant
            k <= es@.len(),
            g0 == old(st)@,
            gather_entries(*lib, g0, es@, 0, fuel as nat) == gather_entries(*lib, st@, es@, k as int, fuel as nat),
        decreases es.len() - k,
    {
        let ghost before = st@;
        match gather_entry_exec(lib, st, &es[k], fuel) {
            Err(e) => {
                assert(gather_entries(*lib, before, es@, k as int, fuel as nat) == Err::<Gathered, Failure>((e.path@, e.message@)));
                return Err(e);
            },
            Ok(()) => {},
        }
        k = k + 1;
    }
    Ok(())
}

/// The first lines of every bundle, up to the time it was made.
pub const BANNER: &'static str = "// Code bundled for competitive programming\n// Generated automatically using AST-based bundler\n// Generated at: ";

/// The imports that every bundle starts with.
pub const BASELINE: &'static str = "use std::io::{self, BufRead, Cursor};\nuse std::collections::*;\nuse std::fmt::Debug;\n\n";

pub const LIBRARY_MARK: &'static str = "// ==================== Library Code ====================\n";

pub const MAIN_MARK: &'static str = "// ==================== Main Code ====================\n";

pub open spec fn digit_char(d: nat) -> char {
    if d == 0 {
        '0'
    } else if d == 1 {
        '1'
    } else if d == 2 {
        '2'
    } else if d == 3 {
        '3'
    } else if d == 4 {
        '4'
    } else if d == 5 {
        '5'
    } else if d == 6 {
        '6'
    } else if d == 7 {
        '7'
    } else if d == 8 {
        '8'
    } else {
        '9'
    }
}

/// `n` in decimal.
pub open spec fn decimal(n: nat) -> Seq<char>
    decreases n,
{
    if n < 10 {
        seq![digit_char(n)]
    } else {
        decimal(n / 10).push(digit_char(n % 10))
    }
}

/// Some identifier of `t` is `name`.
pub open spec fn mentions(t: Seq<Tok>, name: Seq<char>) -> bool {
    exists|k: int| 0 <= k < t.len() && #[trigger] t[k] is Ident && tok_name(t[k]) == name
}

/// The kept imports, one per line, leaving out any that names the root.
pub open spec fn imports_text(imports: Seq<Seq<Tok>>, root: Seq<char>) -> Seq<char>
    decreases imports.len(),
{
    if imports.len() == 0 {
        Seq::empty()
    } else {
        let rest = imports_text(imports.drop_last(), root);
        if mentions(imports.last(), root) {
            rest
        } else {
            rest + rendered(imports.last()) + "\n"@
        }
    }
}

/// The declarations that are (`entry`) or are not (`!entry`) the entry
/// point, rewritten, each followed by a blank line, in order.
pub open spec fn section(items: Seq<DeclView>, entry: bool, root: Seq<char>, aliases: Seq<Seq<char>>) -> Seq<char>
    decreases items.len(),
{
    if items.len() == 0 {
        Seq::empty()
    } else {
        let rest = section(items.drop_last(), entry, root, aliases);
        if is_entry(items.last()) == entry {
            rest + rendered(rewritten(items.last().tokens, 0, root, aliases)) + "\n\n"@
        } else {
            rest
        }
    }
}

/// Everything of a bundle after its time stamp.
pub open spec fn bundle_body(g: Gathered, root: Seq<char>) -> Seq<char> {
    "\n\n"@ + BASELINE@ + imports_text(g.imports, root) + (if g.imports.len() > 0 {
        "\n"@
    } else {
        Seq::empty()
    }) + LIBRARY_MARK@ + section(g.items, false, root, g.aliases) + MAIN_MARK@ + section(
        g.items,
        true,
        root,
        g.aliases,
    )
}

/// The text of a bundle made at `ts` from what was gathered.
pub open spec fn bundle_text(g: Gathered, root: Seq<char>, ts: nat) -> Seq<char> {
    BANNER@ + decimal(ts) + bundle_body(g, root)
}

pub open spec fn empty_gathered() -> Gathered {
    Gathered { items: Seq::empty(), visited: Seq::empty(), imports: Seq::empty(), aliases: Seq::empty() }
}

/// The bundle of the entry file `unit` against `lib`, made at `ts`, or the
/// library file that could not be read or parsed.
pub open spec fn bundled(lib: Library, unit: SourceUnit, ts: nat) -> Result<Seq<char>, Failure> {
    match gather_entries(lib, empty_gathered(), unit.entries@, 0, lib.modules@.len()) {
        Ok(g) => Ok(bundle_text(g, lib.root@, ts)),
        Err(e) => Err(e),
    }
}

fn digit_of(d: u64) -> (c: char)
    requires
        d < 10,
    ensures
        c == digit_char(d as nat),
{
    if d == 0 {
        '0'
    } else if d == 1 {
        '1'
    } else if d == 2 {
        '2'
    } else if d == 3 {
        '3'
    } else if d == 4 {
        '4'
    } else if d == 5 {
        '5'
    } else if d == 6 {
        '6'
    } else if d == 7 {
        '7'
    } else if d == 8 {
        '8'
    } else {
        '9'
    }
}

/// Appends `n` in decimal.
pub fn push_decimal(out: &mut String, n: u64)
    ensures
        final(out)@ == old(out)@ + decimal(n as nat),
    decreases n,
{
    if n < 10 {
        push_char(out, digit_of(n));
        proof {
            assert(final(out)@ =~= old(out)@ + decimal(n as nat));
        }
    } else {
        push_decimal(out, n / 10);
        push_char(out, digit_of(n % 10));
        proof {
            assert(final(out)@ =~= old(out)@ + decimal(n as nat));
        }
    }
}

fn mentions_exec(t: &Vec<Tok>, name: &str) -> (r: bool)
    ensures
        r == mentions(t@, name@),
{
    let mut k: usize = 0;
    while k < t.len()
        invariant
            k <= t.len(),
            forall|m: int| 0 <= m < k ==> !(#[trigger] t@[m] is Ident && tok_name(t@[m]) == name@),
        decreases t.len() - k,
    {
        match &t[k] {
            Tok::Ident(s) => {
                if same_text(s.as_str(), name) {
                    return true;
                }
            },
            _ => {},
        }
        k = k + 1;
    }
    false
}

/// Collects gathered declarations and renders the bundle.
pub struct AstBundler {
    library: Library,
    state: State,
}

impl AstBundler {
    /// The library that the bundler inlines from.
    pub closed spec fn library(&self) -> Library {
        self.library
    }

    /// What the bundler has gathered.
    pub closed spec fn gathered(&self) -> Gathered {
        self.state@
    }

    /// A bundler over `library` that has gathered nothing.
    pub fn new(library: Library) -> (r: Self)
        ensures
            r.library() == library,
            r.gathered() == empty_gathered(),
    {
        let r = AstBundler {
            library,
            state: State {
                bundled_items: Vec::new(),
                processed_modules: Vec::new(),
                use_statements: Vec::new(),
                cp_lib_aliases: Vec::new(),
            },
        };
        proof {
            assert(r.gathered().items =~= Seq::<DeclView>::empty());
            assert(r.gathered().visited =~= Seq::<Seq<char>>::empty());
            assert(r.gathered().imports =~= Seq::<Seq<Tok>>::empty());
            assert(r.gathered().aliases =~= Seq::<Seq<char>>::empty());
        }
        r
    }

    /// Gathers the declarations of a source file, inlining the library files
    /// it uses; fails on the first library file that could not be read or
    /// parsed.
    pub fn process_file_ast(&mut self, unit: &SourceUnit) -> (r: Result<(), BundleError>)
        ensures
            final(self).library() == old(self).library(),
            outcome(r, final(self).gathered()) == gather_entries(
                old(self).library(),
                old(self).gathered(),
                unit.entries@,
                0,
                old(self).library().modules@.len(),
            ),
    {
        let fuel = self.library.modules.len();
        gather_entries_exec(&self.library, &mut self.state, &unit.entries, fuel)
    }

    /// The bundle's text, stamped with `timestamp`: the banner, the baseline
    /// imports, the kept imports, then every library declaration and after
    /// them the entry point, all paths flattened.
    pub fn generate_bundled_code(&self, timestamp: u64) -> (r: String)
        ensures
            r@ == bundle_text(self.gathered(), self.library().root@, timestamp as nat),
    {
        let root = self.library.root.as_str();
        let g = &self.state;
        let mut out = String::from_str(BANNER);
        push_decimal(&mut out, timestamp);
        out.append("\n\n");
        out.append(BASELINE);
        let ghost imports = self.gathered().imports;
        let ghost start = out@;
        let mut k: usize = 0;
        while k < g.use_statements.len()
            invariant
                k <= g.use_statements@.len(),
                imports == self.gathered().imports,
                imports.len() == g.use_statements@.len(),
                forall|m: int| 0 <= m < imports.len() ==> imports[m] == #[trigger] g.use_statements@[m]@,
                out@ == start + imports_text(imports.subrange(0, k as int), root@),
            decreases g.use_statements.len() - k,
        {
            proof {
                assert(imports.subrange(0, k + 1).drop_last() =~= imports.subrange(0, k as int));
            }
            if !mentions_exec(&g.use_statements[k], root) {
                render_tokens(&g.use_statements[k], &mut out);
                out.append("\n");
            }
            k = k + 1;
        }
        proof {
            assert(imports.subrange(0, k as int) =~= imports);
        }
        if g.use_statements.len() > 0 {
            out.append("\n");
        }
        out.append(LIBRARY_MARK);
        self.push_section(&mut out, false);
        out.append(MAIN_MARK);
        self.push_section(&mut out, true);
        out
    }

    fn push_section(&self, out: &mut String, entry: bool)
        ensures
            final(out)@ == old(out)@ + section(
                self.gathered().items,
                entry,
                self.library().root@,
                self.gathered().aliases,
            ),
    {
        let root = self.library.root.as_str();
        let items = &self.state.bundled_items;
        let aliases = &self.state.cp_lib_aliases;
        let ghost iv = self.gathered().items;
        let mut k: usize = 0;
        while k < items.len()
            invariant
                k <= items@.len(),
                iv == self.gathered().items,
                iv == items.deep_view(),
                aliases.deep_view() == self.gathered().aliases,
                root@ == self.library().root@,
                out@ == old(out)@ + section(iv.subrange(0, k as int), entry, root@, aliases.deep_view()),
            decreases items.len() - k,
        {
            proof {
                assert(iv.subrange(0, k + 1).drop_last() =~= iv.subrange(0, k as int));
            }
            let d = &items[k];
            let is_main = match d.kind {
                DeclKind::Function => same_text(d.name.as_str(), "main"),
                _ => false,
            };
            if is_main == entry {
                let flat = strip_paths(&d.tokens, root, aliases);
                render_tokens(&flat, out);
                out.append("\n\n");
            }
            k = k + 1;
        }
        proof {
            assert(iv.subrange(0, k as int) =~= iv);
        }
    }
}

/// Bundles the entry file `unit` against `library`, stamped with
/// `timestamp`.
pub fn bundle(library: Library, unit: &SourceUnit, timestamp: u64) -> (r: Result<String, BundleError>)
    ensures
        match r {
            Ok(text) => bundled(library, *unit, timestamp as nat) == Ok::<Seq<char>, Failure>(text@),
            Err(e) => bundled(library, *unit, timestamp as nat) == Err::<Seq<char>, Failure>((e.path@, e.message@)),
        },
{
    let mut b = AstBundler::new(library);
    match b.process_file_ast(unit) {
        Err(e) => Err(e),
        Ok(()) => Ok(b.generate_bundled_code(timestamp)),
    }
}

} // verus!
