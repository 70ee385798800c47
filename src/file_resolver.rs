use vstd::prelude::*;
use crate::text::{chars_of, find_last, last_index, lemma_last_index, push_chars};
use crate::tokens::holds_name;

verus! {

// Paths here are relative, with `/` between components.

/// Where the last component of `p` starts.
pub open spec fn name_start(p: Seq<char>) -> int {
    last_index(p, '/') + 1
}

/// The last component of `p`.
pub open spec fn file_name(p: Seq<char>) -> Seq<char> {
    p.subrange(name_start(p), p.len() as int)
}

/// Everything before the last `/` of `p` (empty when there is none).
pub open spec fn parent(p: Seq<char>) -> Seq<char> {
    if last_index(p, '/') < 0 {
        Seq::empty()
    } else {
        p.subrange(0, last_index(p, '/'))
    }
}

/// Where the extension's dot stands in the file name (-1 when none).
pub open spec fn dot(p: Seq<char>) -> int {
    last_index(file_name(p), '.')
}

/// The file name has an extension: a dot that is not its first character.
pub open spec fn has_extension(p: Seq<char>) -> bool {
    dot(p) > 0
}

/// The file name without its extension.
pub open spec fn stem(p: Seq<char>) -> Seq<char> {
    if has_extension(p) {
        file_name(p).subrange(0, dot(p))
    } else {
        file_name(p)
    }
}

/// The extension of the file name, without its dot.
pub open spec fn extension(p: Seq<char>) -> Seq<char> {
    if has_extension(p) {
        file_name(p).subrange(dot(p) + 1, file_name(p).len() as int)
    } else {
        Seq::empty()
    }
}

pub open spec fn rs_suffix() -> Seq<char> {
    seq!['.', 'r', 's']
}

pub open spec fn mod_rs() -> Seq<char> {
    seq!['m', 'o', 'd', '.', 'r', 's']
}

/// A source file: its extension is `rs`.
pub open spec fn is_source(p: Seq<char>) -> bool {
    has_extension(p) && extension(p) == seq!['r', 's']
}

/// `p` with the source extension added when it has none.
pub open spec fn with_rs(p: Seq<char>) -> Seq<char> {
    if has_extension(p) || file_name(p).len() == 0 {
        p
    } else {
        p + rs_suffix()
    }
}

/// The directory-default file for the module `p`: `parent/stem/mod.rs`.
pub open spec fn dir_default(p: Seq<char>) -> Seq<char> {
    if file_name(p).len() == 0 {
        parent(p)
    } else if parent(p).len() == 0 {
        stem(p) + seq!['/'] + mod_rs()
    } else {
        parent(p) + seq!['/'] + stem(p) + seq!['/'] + mod_rs()
    }
}

/// `rel` under the directory `root`.
pub open spec fn joined(root: Seq<char>, rel: Seq<char>) -> Seq<char> {
    if root.len() == 0 {
        rel
    } else if root.last() == '/' {
        root + rel
    } else {
        root + seq!['/'] + rel
    }
}

/// The file that `p` names under `root`: `p` itself, else `p` with the
/// source extension added, else its directory default; the first that is
/// among `files`.
pub open spec fn resolved(root: Seq<char>, files: Seq<Seq<char>>, p: Seq<char>) -> Option<Seq<char>> {
    if files.contains(p) {
        Some(joined(root, p))
    } else if files.contains(with_rs(p)) {
        Some(joined(root, with_rs(p)))
    } else if files.contains(dir_default(p)) {
        Some(joined(root, dir_default(p)))
    } else {
        None
    }
}

/// The source files among `files`, each under `root`, in order.
pub open spec fn source_paths(root: Seq<char>, files: Seq<Seq<char>>) -> Seq<Seq<char>>
    decreases files.len(),
{
    if files.len() == 0 {
        Seq::empty()
    } else {
        let rest = source_paths(root, files.drop_last());
        if is_source(files.last()) {
            rest.push(joined(root, files.last()))
        } else {
            rest
        }
    }
}

pub open spec fn opt_view(o: Option<String>) -> Option<Seq<char>> {
    match o {
        Some(s) => Some(s@),
        None => None,
    }
}

/// Finds the files of a library: the index of every file under its root.
pub struct FileResolver {
    lib_root: String,
    files: Vec<String>,
}

/// The positions that split `p` into parent, file name and extension.
struct Split {
    slash: Option<usize>,
    dot: Option<usize>,
}

fn split_path(cs: &Vec<char>) -> (r: Split)
    ensures
        match r.slash {
            Some(k) => k as int == last_index(cs@, '/'),
            None => last_index(cs@, '/') == -1,
        },
        match r.dot {
            Some(k) => k as int == name_start(cs@) + dot(cs@) && dot(cs@) >= 0,
            None => dot(cs@) == -1,
        },
        -1 <= last_index(cs@, '/') < cs@.len(),
        -1 <= dot(cs@) < file_name(cs@).len(),
        cs@.len() <= usize::MAX,
{
    proof {
        lemma_last_index(cs@, '/');
    }
    let slash = find_last(cs, '/');
    let len = cs.len();
    let start: usize = match slash {
        Some(k) => k + 1,
        None => 0,
    };
    let mut name: Vec<char> = Vec::new();
    let mut i: usize = start;
    while i < cs.len()
        invariant
            start as int == name_start(cs@),
            start <= i <= cs@.len(),
            name@ == cs@.subrange(start as int, i as int),
        decreases cs.len() - i,
    {
        name.push(cs[i]);
        proof {
            assert(name@ =~= cs@.subrange(start as int, i + 1));
        }
        i = i + 1;
    }
    proof {
        lemma_last_index(file_name(cs@), '.');
    }
    let d = find_last(&name, '.');
    let dot = match d {
        Some(k) => Some(start + k),
        None => None,
    };
    Split { slash, dot }
}

/// `p` with the source extension added when it has none.
fn with_rs_of(p: &str) -> (r: String)
    ensures
        r@ == with_rs(p@),
{
    let cs = chars_of(p);
    let sp = split_path(&cs);
    let start: usize = match sp.slash {
        Some(k) => k + 1,
        None => 0,
    };
    let has_ext = match sp.dot {
        Some(k) => k > start,
        None => false,
    };
    let mut r = String::from_str(p);
    if !has_ext && start < cs.len() {
        proof {
            reveal_strlit(".rs");
            assert(".rs"@ =~= rs_suffix());
        }
        r.append(".rs");
    }
    r
}

/// The directory-default file for the module `p`.
fn dir_default_of(p: &str) -> (r: String)
    ensures
        r@ == dir_default(p@),
{
    let cs = chars_of(p);
    let sp = split_path(&cs);
    let start: usize = match sp.slash {
        Some(k) => k + 1,
        None => 0,
    };
    let mut r = String::new();
    match sp.slash {
        Some(k) => push_chars(&mut r, &cs, 0, k),
        None => {},
    }
    proof {
        assert(r@ =~= parent(p@));
    }
    if start == cs.len() {
        return r;
    }
    if start > 1 {
        push_char_slash(&mut r);
    }
    let end: usize = match sp.dot {
        Some(k) => if k > start { k } else { cs.len() },
        None => cs.len(),
    };
    push_chars(&mut r, &cs, start, end);
    proof {
        reveal_strlit("/mod.rs");
        assert("/mod.rs"@ =~= seq!['/'] + mod_rs());
    }
    r.append("/mod.rs");
    proof {
        assert(r@ =~= dir_default(p@));
    }
    r
}

fn push_char_slash(r: &mut String)
    ensures
        final(r)@ == old(r)@ + seq!['/'],
{
    proof {
        reveal_strlit("/");
        assert("/"@ =~= seq!['/']);
    }
    r.append("/");
}

impl FileResolver {
    /// The library's root directory.
    pub closed spec fn root(&self) -> Seq<char> {
        self.lib_root@
    }

    /// The files under the root, relative to it.
    pub closed spec fn files(&self) -> Seq<Seq<char>> {
        self.files.deep_view()
    }

    /// An index of the library under `lib_root`, whose files (relative to
    /// it) are `files`.
    pub fn new(lib_root: &str, files: Vec<String>) -> (r: Self)
        ensures
            r.root() == lib_root@,
            r.files() == files.deep_view(),
    {
        FileResolver { lib_root: String::from_str(lib_root), files }
    }

    /// `rel` under the library's root.
    fn join_root(&self, rel: &str) -> (r: String)
        ensures
            r@ == joined(self.root(), rel@),
    {
        let root = chars_of(self.lib_root.as_str());
        let mut r = self.lib_root.clone();
        if root.len() == 0 {
            r = String::from_str(rel);
        } else {
            if root[root.len() - 1] != '/' {
                push_char_slash(&mut r);
            }
            r.append(rel);
        }
        r
    }

    /// The file that `mod_path` names: the path itself, else the path with
    /// the source extension added, else its directory-default `mod.rs`; the
    /// first of these that is a file of the library, under the root.
    pub fn resolve_module_file(&self, mod_path: &str) -> (r: Option<String>)
        ensures
            opt_view(r) == resolved(self.root(), self.files(), mod_path@),
    {
        if holds_name(&self.files, mod_path) {
            return Some(self.join_root(mod_path));
        }
        let v = with_rs_of(mod_path);
        if holds_name(&self.files, v.as_str()) {
            return Some(self.join_root(v.as_str()));
        }
        let d = dir_default_of(mod_path);
        if holds_name(&self.files, d.as_str()) {
            return Some(self.join_root(d.as_str()));
        }
        None
    }

    /// Every source file of the library, under the root.
    pub fn list_all_files(&self) -> (r: Vec<String>)
        ensures
            r.deep_view() == source_paths(self.root(), self.files()),
    {
        let mut out: Vec<String> = Vec::new();
        let mut i: usize = 0;
        while i < self.files.len()
            invariant
                i <= self.files@.len(),
                out.deep_view() == source_paths(self.root(), self.files().subrange(0, i as int)),
            decreases self.files.len() - i,
        {
            let ghost before = out.deep_view();
            proof {
                assert(self.files().subrange(0, i + 1).drop_last() =~= self.files().subrange(0, i as int));
            }
            if is_source_path(self.files[i].as_str()) {
                out.push(self.join_root(self.files[i].as_str()));
                proof {
                    assert(out.deep_view() =~= before.push(joined(self.root(), self.files()[i as int])));
                }
            }
            i = i + 1;
        }
        proof {
            assert(self.files().subrange(0, i as int) =~= self.files());
        }
        out
    }
}

/// Whether `p` names a source file.
fn is_source_path(p: &str) -> (r: bool)
    ensures
        r == is_source(p@),
{
    let cs = chars_of(p);
    let sp = split_path(&cs);
    let start: usize = match sp.slash {
        Some(k) => k + 1,
        None => 0,
    };
    match sp.dot {
        Some(k) => {
            if k > start && cs.len() - k == 3 && cs[k + 1] == 'r' && cs[k + 2] == 's' {
                proof {
                    assert(extension(p@) =~= seq!['r', 's']);
                }
                true
            } else {
                proof {
                    if has_extension(p@) {
                        assert(extension(p@).len() == cs.len() - k - 1);
                        if extension(p@).len() == 2 {
                            assert(extension(p@)[0] == cs@[k + 1]);
                            assert(extension(p@)[1] == cs@[k + 2]);
                        }
                    }
                }
                false
            }
        },
        None => false,
    }
}

} // verus!
