use vstd::prelude::*;
use vstd::set_lib::lemma_len_subset;
use vstd::seq_lib::seq_to_set_is_finite;
use crate::ast_bundler::{
    BANNER, LIBRARY_MARK, MAIN_MARK, BASELINE, DeclView, Gathered, Library, SourceUnit, bundle_body,
    bundle_text, bundled, decimal, imports_text, is_entry, section,
};
use crate::tokens::{
    Tok, continues, last_seg, lemma_last_seg, lemma_seg_end, more, rendered, rewritten, seg_end, starts_path, strips,
    tok_name,
};
use crate::ast_bundler::{
    Entry, Loaded, Module, empty_gathered, mentions, gather_entries, gather_entry, gather_import_paths, inline_all, inline_module,
    is_metadata, lookup, resolve_import,
};

verus! {

/// The declarations of `items` that are (`entry`) or are not (`!entry`) the
/// entry point, in order.
pub open spec fn part(items: Seq<DeclView>, entry: bool) -> Seq<DeclView>
    decreases items.len(),
{
    if items.len() == 0 {
        Seq::empty()
    } else if is_entry(items.last()) == entry {
        part(items.drop_last(), entry).push(items.last())
    } else {
        part(items.drop_last(), entry)
    }
}

/// Each declaration of `ds`, flattened and rendered, followed by a blank line.
pub open spec fn texts(ds: Seq<DeclView>, root: Seq<char>, aliases: Seq<Seq<char>>) -> Seq<char>
    decreases ds.len(),
{
    if ds.len() == 0 {
        Seq::empty()
    } else {
        texts(ds.drop_last(), root, aliases) + rendered(rewritten(ds.last().tokens, 0, root, aliases)) + "\n\n"@
    }
}

proof fn lemma_section_is_part(items: Seq<DeclView>, entry: bool, root: Seq<char>, aliases: Seq<Seq<char>>)
    ensures
        section(items, entry, root, aliases) == texts(part(items, entry), root, aliases),
        forall|i: int| 0 <= i < part(items, entry).len() ==> is_entry(#[trigger] part(items, entry)[i]) == entry,
        part(items, true).len() + part(items, false).len() == items.len(),
    decreases items.len(),
{
    if items.len() > 0 {
        lemma_section_is_part(items.drop_last(), entry, root, aliases);
        lemma_section_is_part(items.drop_last(), !entry, root, aliases);
        let p = part(items.drop_last(), entry);
        if is_entry(items.last()) == entry {
            assert(part(items, entry).drop_last() =~= p);
        }
    }
}

/// Bundling the same input twice gives the same text but for the time
/// stamp: both outcomes fail alike, or both are the banner, the stamp and
/// one same remainder.
pub proof fn lemma_same_input_same_bundle(lib: Library, unit: SourceUnit, t1: nat, t2: nat)
    ensures
        bundled(lib, unit, t1) is Ok <==> bundled(lib, unit, t2) is Ok,
        bundled(lib, unit, t1) is Err ==> bundled(lib, unit, t1) == bundled(lib, unit, t2),
        bundled(lib, unit, t1) is Ok ==> exists|rest: Seq<char>|
            bundled(lib, unit, t1) == Ok::<Seq<char>, (Seq<char>, Seq<char>)>(BANNER@ + decimal(t1) + rest)
                && bundled(lib, unit, t2) == Ok::<Seq<char>, (Seq<char>, Seq<char>)>(BANNER@ + decimal(t2) + rest),
{
    match crate::ast_bundler::gather_entries(lib, crate::ast_bundler::empty_gathered(), unit.entries@, 0, lib.modules@.len()) {
        Ok(g) => {
            let rest = bundle_body(g, lib.root@);
            assert(bundled(lib, unit, t1) == Ok::<Seq<char>, (Seq<char>, Seq<char>)>(BANNER@ + decimal(t1) + rest));
        },
        Err(_) => {},
    }
}

/// Every library declaration is written before the entry point, whatever
/// order they were found in: after the fixed head, the bundle holds the
/// declarations that are not the entry point, then its marker, then those
/// that are; together they are all the gathered declarations.
pub proof fn lemma_library_before_entry(g: Gathered, root: Seq<char>, ts: nat)
    ensures
        bundle_text(g, root, ts) == BANNER@ + decimal(ts) + "\n\n"@ + BASELINE@ + imports_text(g.imports, root) + (
        if g.imports.len() > 0 {
            "\n"@
        } else {
            Seq::empty()
        }) + LIBRARY_MARK@ + texts(part(g.items, false), root, g.aliases) + MAIN_MARK@ + texts(
            part(g.items, true),
            root,
            g.aliases,
        ),
        forall|i: int| 0 <= i < part(g.items, false).len() ==> !is_entry(#[trigger] part(g.items, false)[i]),
        forall|i: int| 0 <= i < part(g.items, true).len() ==> is_entry(#[trigger] part(g.items, true)[i]),
        part(g.items, false).len() + part(g.items, true).len() == g.items.len(),
{
    lemma_section_is_part(g.items, false, root, g.aliases);
    lemma_section_is_part(g.items, true, root, g.aliases);
    assert(bundle_text(g, root, ts) =~= BANNER@ + decimal(ts) + "\n\n"@ + BASELINE@ + imports_text(g.imports, root) + (
    if g.imports.len() > 0 {
        "\n"@
    } else {
        Seq::empty()
    }) + LIBRARY_MARK@ + texts(part(g.items, false), root, g.aliases) + MAIN_MARK@ + texts(
        part(g.items, true),
        root,
        g.aliases,
    ));
}

/// No identifier of `s` is `root`.
pub open spec fn root_free(s: Seq<Tok>, root: Seq<char>) -> bool {
    forall|k: int| 0 <= k < s.len() ==> !(#[trigger] s[k] is Ident && tok_name(s[k]) == root)
}

/// `root` stands only at the head of paths that `::` follows: a path of
/// two segments or more, or `root::{...}` and `root::*`.
pub open spec fn root_only_heads(t: Seq<Tok>, root: Seq<char>) -> bool {
    forall|k: int|
        0 <= k < t.len() && #[trigger] t[k] is Ident && tok_name(t[k]) == root ==> starts_path(t, k) && more(t, k)
}

proof fn lemma_no_root_from(t: Seq<Tok>, i: int, root: Seq<char>, aliases: Seq<Seq<char>>)
    requires
        root_only_heads(t, root),
        0 <= i,
    ensures
        root_free(rewritten(t, i, root, aliases), root),
    decreases t.len() - i,
{
    if i < t.len() {
        if t[i] is Sep && starts_path(t, i + 1) && strips(t, i + 1, root, aliases) {
            lemma_no_root_from(t, i + 1, root, aliases);
        } else if starts_path(t, i) && strips(t, i, root, aliases) {
            lemma_seg_end(t, i);
            lemma_last_seg(t, i);
            if !continues(t, i) && more(t, i) {
                lemma_no_root_from(t, seg_end(t, i) + 1, root, aliases);
            } else {
                let e = last_seg(t, i);
                lemma_no_root_from(t, e + 1, root, aliases);
                let rest = rewritten(t, e + 1, root, aliases);
                assert(rewritten(t, i, root, aliases) == seq![t[e]] + rest);
                if e > i {
                    assert(!starts_path(t, e));
                }
                assert(!(t[e] is Ident && tok_name(t[e]) == root));
                assert forall|k: int| 0 <= k < rewritten(t, i, root, aliases).len() implies !(#[trigger] rewritten(t, i, root, aliases)[k] is Ident
                    && tok_name(rewritten(t, i, root, aliases)[k]) == root) by {
                    if k > 0 {
                        assert(rewritten(t, i, root, aliases)[k] == rest[k - 1]);
                    }
                }
            }
        } else {
            lemma_no_root_from(t, i + 1, root, aliases);
            let rest = rewritten(t, i + 1, root, aliases);
            assert(rewritten(t, i, root, aliases) == seq![t[i]] + rest);
            assert forall|k: int| 0 <= k < rewritten(t, i, root, aliases).len() implies !(#[trigger] rewritten(t, i, root, aliases)[k] is Ident
                && tok_name(rewritten(t, i, root, aliases)[k]) == root) by {
                if k > 0 {
                    assert(rewritten(t, i, root, aliases)[k] == rest[k - 1]);
                }
            }
        }
    }
}

/// Flattening leaves no identifier that is the library root, where the
/// root only ever heads a path that `::` follows.
pub proof fn lemma_no_root_left(t: Seq<Tok>, root: Seq<char>, aliases: Seq<Seq<char>>)
    requires
        root_only_heads(t, root),
    ensures
        root_free(rewritten(t, 0, root, aliases), root),
{
    lemma_no_root_from(t, 0, root, aliases);
}

/// The declaration uses the library root only at the head of a path that
/// `::` follows (imports are never written out with the root).
pub open spec fn entry_clean(e: Entry, root: Seq<char>) -> bool {
    match e {
        Entry::Item(d) => root_only_heads(d.tokens@, root),
        Entry::Import(_, _) => true,
    }
}

pub open spec fn entries_clean(es: Seq<Entry>, root: Seq<char>) -> bool {
    forall|k: int| 0 <= k < es.len() ==> entry_clean(#[trigger] es[k], root)
}

/// Every parsed library file uses the root only at path heads.
pub open spec fn library_clean(lib: Library) -> bool {
    forall|k: int|
        0 <= k < lib.modules@.len() ==> match #[trigger] lib.modules@[k].loaded {
            Loaded::Parsed(u) => entries_clean(u.entries@, lib.root@),
            Loaded::Failed(_) => true,
        }
}

/// Every library file was read and parsed (true of an empty library).
pub open spec fn loads_all(lib: Library) -> bool {
    forall|k: int| 0 <= k < lib.modules@.len() ==> #[trigger] lib.modules@[k].loaded is Parsed
}

proof fn lemma_lookup_member(mods: Seq<Module>, p: Seq<char>)
    requires
        lookup(mods, p) is Some,
    ensures
        exists|k: int| 0 <= k < mods.len() && #[trigger] mods[k].loaded == lookup(mods, p)->Some_0,
    decreases mods.len(),
{
    if mods[0].path@ != p {
        let rest = mods.subrange(1, mods.len() as int);
        lemma_lookup_member(rest, p);
        let k = choose|k: int| 0 <= k < rest.len() && #[trigger] rest[k].loaded == lookup(rest, p)->Some_0;
        assert(mods[k + 1].loaded == lookup(mods, p)->Some_0);
    } else {
        assert(mods[0].loaded == lookup(mods, p)->Some_0);
    }
}

/// No library file was inlined twice, no metadata constant was kept, and
/// with `c` every kept declaration uses the root only at path heads.
pub open spec fn sound(lib: Library, g: Gathered, c: bool) -> bool {
    &&& g.visited.no_duplicates()
    &&& forall|i: int| 0 <= i < g.items.len() ==> !is_metadata(#[trigger] g.items[i])
    &&& c ==> forall|i: int|
        0 <= i < g.items.len() ==> root_only_heads(#[trigger] g.items[i].tokens, lib.root@)
}

proof fn lemma_inline_module_sound(lib: Library, g: Gathered, segs: Seq<Seq<char>>, fuel: nat, c: bool)
    requires
        sound(lib, g, c),
        c ==> library_clean(lib),
    ensures
        inline_module(lib, g, segs, fuel) is Ok ==> sound(lib, inline_module(lib, g, segs, fuel)->Ok_0, c),
        loads_all(lib) ==> inline_module(lib, g, segs, fuel) is Ok,
    decreases fuel, 0nat, 0nat,
{
    match resolve_import(lib, segs) {
        None => {},
        Some(p) => {
            if !(g.visited.contains(p) || fuel == 0) {
                if lookup(lib.modules@, p) is Some {
                    lemma_lookup_member(lib.modules@, p);
                }
                match lookup(lib.modules@, p) {
                    Some(Loaded::Parsed(u)) => {
                        let k = choose|k: int| 0 <= k < lib.modules@.len() && #[trigger] lib.modules@[k].loaded == lookup(lib.modules@, p)->Some_0;
                        assert(lib.modules@[k].loaded == Loaded::Parsed(u));
                        let g1 = Gathered { visited: g.visited.push(p), ..g };
                        assert forall|a: int, b: int| 0 <= a < g1.visited.len() && 0 <= b < g1.visited.len() && a != b implies g1.visited[a] != g1.visited[b] by {
                            if a == g.visited.len() as int {
                                assert(g.visited[b] == g1.visited[b]);
                            } else if b == g.visited.len() as int {
                                assert(g.visited[a] == g1.visited[a]);
                            }
                        }
                        lemma_entries_sound(lib, g1, u.entries@, 0, (fuel - 1) as nat, c);
                    },
                    Some(Loaded::Failed(_)) => {
                        let k = choose|k: int| 0 <= k < lib.modules@.len() && #[trigger] lib.modules@[k].loaded == lookup(lib.modules@, p)->Some_0;
                        assert(!loads_all(lib) || lib.modules@[k].loaded is Parsed);
                    },
                    None => {},
                }
            }
        },
    }
}

proof fn lemma_inline_all_sound(lib: Library, g: Gathered, refs: Seq<Seq<Seq<char>>>, j: int, fuel: nat, c: bool)
    requires
        sound(lib, g, c),
        c ==> library_clean(lib),
    ensures
        inline_all(lib, g, refs, j, fuel) is Ok ==> sound(lib, inline_all(lib, g, refs, j, fuel)->Ok_0, c),
        loads_all(lib) ==> inline_all(lib, g, refs, j, fuel) is Ok,
    decreases fuel, 1nat, refs.len() - j,
{
    if 0 <= j < refs.len() {
        lemma_inline_module_sound(lib, g, refs[j], fuel, c);
        match inline_module(lib, g, refs[j], fuel) {
            Ok(g2) => lemma_inline_all_sound(lib, g2, refs, j + 1, fuel, c),
            Err(_) => {},
        }
    }
}

proof fn lemma_import_paths_sound(
    lib: Library,
    g: Gathered,
    paths: Seq<Seq<Seq<char>>>,
    names: Seq<Seq<char>>,
    toks: Seq<Tok>,
    j: int,
    fuel: nat,
    c: bool,
)
    requires
        sound(lib, g, c),
        c ==> library_clean(lib),
    ensures
        gather_import_paths(lib, g, paths, names, toks, j, fuel) is Ok ==> sound(lib, gather_import_paths(lib, g, paths, names, toks, j, fuel)->Ok_0, c),
        loads_all(lib) ==> gather_import_paths(lib, g, paths, names, toks, j, fuel) is Ok,
    decreases fuel, 1nat, paths.len() - j,
{
    if 0 <= j < paths.len() {
        let path = paths[j];
        if path.len() >= 2 && path[0] == lib.root@ {
            let g1 = if crate::ast_bundler::names_module(names[j]) && !g.aliases.contains(names[j]) {
                Gathered { aliases: g.aliases.push(names[j]), ..g }
            } else {
                g
            };
            lemma_inline_module_sound(lib, g1, path, fuel, c);
            match inline_module(lib, g1, path, fuel) {
                Ok(g2) => lemma_import_paths_sound(lib, g2, paths, names, toks, j + 1, fuel, c),
                Err(_) => {},
            }
        } else if path.len() >= 2 && !crate::ast_bundler::is_local_root(path[0]) {
            let g1 = if crate::ast_bundler::mentions_std_io(toks) || crate::ast_bundler::holds_tokens(g.imports, toks) {
                g
            } else {
                Gathered { imports: g.imports.push(toks), ..g }
            };
            lemma_import_paths_sound(lib, g1, paths, names, toks, j + 1, fuel, c);
        } else {
            lemma_import_paths_sound(lib, g, paths, names, toks, j + 1, fuel, c);
        }
    }
}

proof fn lemma_entry_sound(lib: Library, g: Gathered, e: Entry, fuel: nat, c: bool)
    requires
        sound(lib, g, c),
        c ==> library_clean(lib),
        c ==> entry_clean(e, lib.root@),
    ensures
        gather_entry(lib, g, e, fuel) is Ok ==> sound(lib, gather_entry(lib, g, e, fuel)->Ok_0, c),
        loads_all(lib) ==> gather_entry(lib, g, e, fuel) is Ok,
    decreases fuel, 2nat, 0nat,
{
    match e {
        Entry::Import(tree, toks) => {
            lemma_import_paths_sound(
                lib,
                g,
                crate::use_tree::use_paths(Seq::empty(), tree),
                crate::use_tree::use_names(tree),
                toks@,
                0,
                fuel,
                c,
            );
        },
        Entry::Item(d) => {
            if !is_metadata(d.deep_view()) {
                let refs = crate::tokens::lib_refs(d.tokens@, 0, lib.root@);
                lemma_inline_all_sound(lib, g, refs, 0, fuel, c);
                match inline_all(lib, g, refs, 0, fuel) {
                    Ok(g2) => {
                        let g3 = Gathered { items: g2.items.push(d.deep_view()), ..g2 };
                        assert forall|i: int| 0 <= i < g3.items.len() implies !is_metadata(#[trigger] g3.items[i]) by {
                            if i < g2.items.len() {
                                assert(g3.items[i] == g2.items[i]);
                            }
                        }
                        if c {
                            assert forall|i: int| 0 <= i < g3.items.len() implies root_only_heads(#[trigger] g3.items[i].tokens, lib.root@) by {
                                if i < g2.items.len() {
                                    assert(g3.items[i] == g2.items[i]);
                                }
                            }
                        }
                    },
                    Err(_) => {},
                }
            }
        },
    }
}

proof fn lemma_entries_sound(lib: Library, g: Gathered, es: Seq<Entry>, k: int, fuel: nat, c: bool)
    requires
        sound(lib, g, c),
        c ==> library_clean(lib),
        c ==> entries_clean(es, lib.root@),
    ensures
        gather_entries(lib, g, es, k, fuel) is Ok ==> sound(lib, gather_entries(lib, g, es, k, fuel)->Ok_0, c),
        loads_all(lib) ==> gather_entries(lib, g, es, k, fuel) is Ok,
    decreases fuel, 3nat, es.len() - k,
{
    if 0 <= k < es.len() {
        lemma_entry_sound(lib, g, es[k], fuel, c);
        match gather_entry(lib, g, es[k], fuel) {
            Ok(g2) => lemma_entries_sound(lib, g2, es, k + 1, fuel, c),
            Err(_) => {},
        }
    }
}

/// However many times and from wherever a library file is imported, a
/// bundle inlines it at most once; no constant that carries the problem's
/// title or identifier is among the declarations it writes.
pub proof fn lemma_inlined_once(lib: Library, unit: SourceUnit)
    ensures
        gather_entries(lib, empty_gathered(), unit.entries@, 0, lib.modules@.len()) is Ok ==> sound(
            lib,
            gather_entries(lib, empty_gathered(), unit.entries@, 0, lib.modules@.len())->Ok_0,
            false,
        ),
{
    lemma_entries_sound(lib, empty_gathered(), unit.entries@, 0, lib.modules@.len(), false);
}

/// Importing a library file that was already inlined, from anywhere,
/// changes nothing that was gathered.
pub proof fn lemma_second_import_adds_nothing(lib: Library, g: Gathered, segs: Seq<Seq<char>>, fuel: nat)
    requires
        resolve_import(lib, segs) is Some,
        g.visited.contains(resolve_import(lib, segs)->Some_0),
    ensures
        inline_module(lib, g, segs, fuel) == Ok::<Gathered, (Seq<char>, Seq<char>)>(g),
{
}

/// A library whose every file was read and parsed, an empty or missing one
/// among them, never makes bundling fail.
pub proof fn lemma_loaded_library_never_fails(lib: Library, unit: SourceUnit, ts: nat)
    requires
        loads_all(lib),
    ensures
        bundled(lib, unit, ts) is Ok,
{
    lemma_entries_sound(lib, empty_gathered(), unit.entries@, 0, lib.modules@.len(), false);
}

/// No library root is left in a bundle: where the entry file and every
/// library file use the root only at the head of paths that `::` follows,
/// every declaration written is free of it once flattened, and an import is
/// written only where it does not name the root.
pub proof fn lemma_no_root_in_bundle(lib: Library, unit: SourceUnit)
    requires
        library_clean(lib),
        entries_clean(unit.entries@, lib.root@),
        gather_entries(lib, empty_gathered(), unit.entries@, 0, lib.modules@.len()) is Ok,
    ensures
        ({
            let g = gather_entries(lib, empty_gathered(), unit.entries@, 0, lib.modules@.len())->Ok_0;
            &&& forall|i: int|
                0 <= i < g.items.len() ==> root_free(#[trigger] rewritten(g.items[i].tokens, 0, lib.root@, g.aliases), lib.root@)
            &&& forall|i: int|
                0 <= i < g.imports.len() && !mentions(#[trigger] g.imports[i], lib.root@) ==> root_free(g.imports[i], lib.root@)
        }),
{
    lemma_entries_sound(lib, empty_gathered(), unit.entries@, 0, lib.modules@.len(), true);
    let g = gather_entries(lib, empty_gathered(), unit.entries@, 0, lib.modules@.len())->Ok_0;
    assert forall|i: int| 0 <= i < g.items.len() implies root_free(#[trigger] rewritten(g.items[i].tokens, 0, lib.root@, g.aliases), lib.root@) by {
        assert(root_only_heads(g.items[i].tokens, lib.root@));
        lemma_no_root_left(g.items[i].tokens, lib.root@, g.aliases);
    }
}

/// A path that begins with the library root, or with an alias and goes on
/// past it, is written as its last segment alone: the identifier that ends
/// the path, with only what follows the path after it.
pub proof fn lemma_path_cut_to_last(t: Seq<Tok>, i: int, root: Seq<char>, aliases: Seq<Seq<char>>)
    requires
        starts_path(t, i),
        continues(t, i),
        tok_name(t[i]) == root || aliases.contains(tok_name(t[i])),
    ensures
        rewritten(t, i, root, aliases) == seq![t[last_seg(t, i)]] + rewritten(t, last_seg(t, i) + 1, root, aliases),
        t[last_seg(t, i)] is Ident,
        tok_name(t[last_seg(t, i)]) == crate::tokens::path_segs(t, i).last(),
{
    lemma_last_seg(t, i);
    lemma_last_is_last_segment(t, i);
}

proof fn lemma_last_is_last_segment(t: Seq<Tok>, i: int)
    requires
        0 <= i < t.len(),
        t[i] is Ident,
    ensures
        tok_name(t[last_seg(t, i)]) == crate::tokens::path_segs(t, i).last(),
    decreases t.len() - i,
{
    lemma_seg_end(t, i);
    if continues(t, i) {
        lemma_last_is_last_segment(t, seg_end(t, i) + 1);
    }
}

/// The paths of the loaded library files.
pub open spec fn module_paths(mods: Seq<Module>) -> Seq<Seq<char>> {
    Seq::new(mods.len(), |i: int| mods[i].path@)
}

proof fn lemma_lookup_found(mods: Seq<Module>, p: Seq<char>)
    requires
        lookup(mods, p) is Some,
    ensures
        module_paths(mods).contains(p),
    decreases mods.len(),
{
    if mods[0].path@ != p {
        let rest = mods.subrange(1, mods.len() as int);
        lemma_lookup_found(rest, p);
        let k = choose|k: int| 0 <= k < module_paths(rest).len() && module_paths(rest)[k] == p;
        assert(module_paths(mods)[k + 1] == p);
    } else {
        assert(module_paths(mods)[0] == p);
    }
}

/// Fuel `fuel` suffices from `g` on: the files inlined are distinct library
/// files, and they and the fuel together reach the number of files.
pub open spec fn fuel_ok(lib: Library, g: Gathered, fuel: nat) -> bool {
    &&& g.visited.no_duplicates()
    &&& forall|i: int| 0 <= i < g.visited.len() ==> #[trigger] lookup(lib.modules@, g.visited[i]) is Some
    &&& fuel + g.visited.len() >= lib.modules@.len()
}

/// A library file not yet inlined leaves fuel to inline it.
proof fn lemma_room_left(lib: Library, g: Gathered, fuel: nat, p: Seq<char>)
    requires
        fuel_ok(lib, g, fuel),
        !g.visited.contains(p),
        lookup(lib.modules@, p) is Some,
    ensures
        fuel > 0,
{
    let paths = module_paths(lib.modules@);
    let seen = g.visited.to_set().insert(p);
    assert forall|q: Seq<char>| seen.contains(q) implies paths.to_set().contains(q) by {
        if q == p {
            lemma_lookup_found(lib.modules@, p);
        } else {
            let i = choose|i: int| 0 <= i < g.visited.len() && g.visited[i] == q;
            assert(lookup(lib.modules@, g.visited[i]) is Some);
            lemma_lookup_found(lib.modules@, q);
        }
    }
    seq_to_set_is_finite(paths);
    lemma_len_subset(seen, paths.to_set());
    paths.lemma_cardinality_of_set();
    g.visited.unique_seq_to_set();
    assert(!g.visited.to_set().contains(p));
}

proof fn lemma_inline_module_fuel(lib: Library, g: Gathered, segs: Seq<Seq<char>>, fuel: nat)
    requires
        fuel_ok(lib, g, fuel),
    ensures
        inline_module(lib, g, segs, fuel) == inline_module(lib, g, segs, fuel + 1),
        inline_module(lib, g, segs, fuel) is Ok ==> fuel_ok(lib, inline_module(lib, g, segs, fuel)->Ok_0, fuel),
    decreases fuel, 0nat, 0nat,
{
    match resolve_import(lib, segs) {
        None => {},
        Some(p) => {
            if !g.visited.contains(p) {
                if lookup(lib.modules@, p) is Some {
                    lemma_room_left(lib, g, fuel, p);
                }
                if lookup(lib.modules@, p) is Some {
                    lemma_lookup_member(lib.modules@, p);
                }
                match lookup(lib.modules@, p) {
                    Some(Loaded::Parsed(u)) => {
                        let k = choose|k: int| 0 <= k < lib.modules@.len() && #[trigger] lib.modules@[k].loaded == lookup(lib.modules@, p)->Some_0;
                        assert(lib.modules@[k].loaded == Loaded::Parsed(u));
                        let g1 = Gathered { visited: g.visited.push(p), ..g };
                        assert forall|a: int, b: int| 0 <= a < g1.visited.len() && 0 <= b < g1.visited.len() && a != b implies g1.visited[a] != g1.visited[b] by {
                            if a == g.visited.len() as int {
                                assert(g.visited[b] == g1.visited[b]);
                            } else if b == g.visited.len() as int {
                                assert(g.visited[a] == g1.visited[a]);
                            }
                        }
                        assert forall|i: int| 0 <= i < g1.visited.len() implies #[trigger] lookup(lib.modules@, g1.visited[i]) is Some by {
                            if i < g.visited.len() {
                                assert(g1.visited[i] == g.visited[i]);
                            }
                        }
                        lemma_entries_fuel(lib, g1, u.entries@, 0, (fuel - 1) as nat);
                        assert(((fuel - 1) as nat) + 1 == fuel);
                    },
                    _ => {},
                }
            }
        },
    }
}

proof fn lemma_inline_all_fuel(lib: Library, g: Gathered, refs: Seq<Seq<Seq<char>>>, j: int, fuel: nat)
    requires
        fuel_ok(lib, g, fuel),
    ensures
        inline_all(lib, g, refs, j, fuel) == inline_all(lib, g, refs, j, fuel + 1),
        inline_all(lib, g, refs, j, fuel) is Ok ==> fuel_ok(lib, inline_all(lib, g, refs, j, fuel)->Ok_0, fuel),
    decreases fuel, 1nat, refs.len() - j,
{
    if 0 <= j < refs.len() {
        lemma_inline_module_fuel(lib, g, refs[j], fuel);
        match inline_module(lib, g, refs[j], fuel) {
            Ok(g2) => lemma_inline_all_fuel(lib, g2, refs, j + 1, fuel),
            Err(_) => {},
        }
    }
}

proof fn lemma_import_paths_fuel(
    lib: Library,
    g: Gathered,
    paths: Seq<Seq<Seq<char>>>,
    names: Seq<Seq<char>>,
    toks: Seq<Tok>,
    j: int,
    fuel: nat,
)
    requires
        fuel_ok(lib, g, fuel),
    ensures
        gather_import_paths(lib, g, paths, names, toks, j, fuel) == gather_import_paths(lib, g, paths, names, toks, j, fuel + 1),
        gather_import_paths(lib, g, paths, names, toks, j, fuel) is Ok ==> fuel_ok(
            lib,
            gather_import_paths(lib, g, paths, names, toks, j, fuel)->Ok_0,
            fuel,
        ),
    decreases fuel, 1nat, paths.len() - j,
{
    if 0 <= j < paths.len() {
        let path = paths[j];
        if path.len() >= 2 && path[0] == lib.root@ {
            let g1 = if crate::ast_bundler::names_module(names[j]) && !g.aliases.contains(names[j]) {
                Gathered { aliases: g.aliases.push(names[j]), ..g }
            } else {
                g
            };
            lemma_inline_module_fuel(lib, g1, path, fuel);
            match inline_module(lib, g1, path, fuel) {
                Ok(g2) => lemma_import_paths_fuel(lib, g2, paths, names, toks, j + 1, fuel),
                Err(_) => {},
            }
        } else if path.len() >= 2 && !crate::ast_bundler::is_local_root(path[0]) {
            let g1 = if crate::ast_bundler::mentions_std_io(toks) || crate::ast_bundler::holds_tokens(g.imports, toks) {
                g
            } else {
                Gathered { imports: g.imports.push(toks), ..g }
            };
            lemma_import_paths_fuel(lib, g1, paths, names, toks, j + 1, fuel);
        } else {
            lemma_import_paths_fuel(lib, g, paths, names, toks, j + 1, fuel);
        }
    }
}

proof fn lemma_entry_fuel(lib: Library, g: Gathered, e: Entry, fuel: nat)
    requires
        fuel_ok(lib, g, fuel),
    ensures
        gather_entry(lib, g, e, fuel) == gather_entry(lib, g, e, fuel + 1),
        gather_entry(lib, g, e, fuel) is Ok ==> fuel_ok(lib, gather_entry(lib, g, e, fuel)->Ok_0, fuel),
    decreases fuel, 2nat, 0nat,
{
    match e {
        Entry::Import(tree, toks) => {
            lemma_import_paths_fuel(
                lib,
                g,
                crate::use_tree::use_paths(Seq::empty(), tree),
                crate::use_tree::use_names(tree),
                toks@,
                0,
                fuel,
            );
        },
        Entry::Item(d) => {
            if !is_metadata(d.deep_view()) {
                lemma_inline_all_fuel(lib, g, crate::tokens::lib_refs(d.tokens@, 0, lib.root@), 0, fuel);
            }
        },
    }
}

proof fn lemma_entries_fuel(lib: Library, g: Gathered, es: Seq<Entry>, k: int, fuel: nat)
    requires
        fuel_ok(lib, g, fuel),
    ensures
        gather_entries(lib, g, es, k, fuel) == gather_entries(lib, g, es, k, fuel + 1),
        gather_entries(lib, g, es, k, fuel) is Ok ==> fuel_ok(lib, gather_entries(lib, g, es, k, fuel)->Ok_0, fuel),
    decreases fuel, 3nat, es.len() - k,
{
    if 0 <= k < es.len() {
        lemma_entry_fuel(lib, g, es[k], fuel);
        match gather_entry(lib, g, es[k], fuel) {
            Ok(g2) => lemma_entries_fuel(lib, g2, es, k + 1, fuel),
            Err(_) => {},
        }
    }
}

/// Bundling never stops inlining for want of depth: starting with as many
/// steps as there are library files gives the same outcome as starting
/// with any more.
pub proof fn lemma_depth_suffices(lib: Library, unit: SourceUnit, extra: nat)
    ensures
        gather_entries(lib, empty_gathered(), unit.entries@, 0, lib.modules@.len()) == gather_entries(
            lib,
            empty_gathered(),
            unit.entries@,
            0,
            lib.modules@.len() + extra,
        ),
    decreases extra,
{
    if extra > 0 {
        lemma_depth_suffices(lib, unit, (extra - 1) as nat);
        let f = (lib.modules@.len() + extra - 1) as nat;
        assert(fuel_ok(lib, empty_gathered(), f));
        lemma_entries_fuel(lib, empty_gathered(), unit.entries@, 0, f);
    }
}

} // verus!
