use vstd::prelude::*;

verus! {

/// One `use` declaration's tree, as written in the source.
#[derive(Debug)]
pub enum UseTree {
    /// `segment::rest`
    Path(String, Box<UseTree>),
    /// A final name.
    Name(String),
    /// `name as alias`: the name before `as` is what is imported.
    Rename(String, String),
    /// `*`
    Glob,
    /// `{a, b, ...}`
    Group(Vec<UseTree>),
}

pub open spec fn glob_segment() -> Seq<char> {
    seq!['*']
}

/// Every path that a use tree imports, each as its list of segments, in
/// source order, each prefixed by `prefix`.
pub open spec fn use_paths(prefix: Seq<Seq<char>>, t: UseTree) -> Seq<Seq<Seq<char>>>
    decreases t, 1nat, 0nat,
{
    match t {
        UseTree::Path(id, sub) => use_paths(prefix.push(id@), *sub),
        UseTree::Name(id) => seq![prefix.push(id@)],
        UseTree::Rename(id, _) => seq![prefix.push(id@)],
        UseTree::Glob => seq![prefix.push(glob_segment())],
        UseTree::Group(items) => group_paths(prefix, t, items@.len()),
    }
}

/// The paths of the first `k` members of a group `t`.
pub open spec fn group_paths(prefix: Seq<Seq<char>>, t: UseTree, k: nat) -> Seq<Seq<Seq<char>>>
    decreases t, 0nat, k,
{
    match t {
        UseTree::Group(items) => {
            if k == 0 || k > items@.len() {
                Seq::empty()
            } else {
                group_paths(prefix, t, (k - 1) as nat) + use_paths(prefix, items@[k - 1])
            }
        },
        _ => Seq::empty(),
    }
}

/// The local name that each path of `t` is bound to, in the order of
/// `use_paths`: the final name, or the name after `as`, or `*`.
pub open spec fn use_names(t: UseTree) -> Seq<Seq<char>>
    decreases t, 1nat, 0nat,
{
    match t {
        UseTree::Path(_, sub) => use_names(*sub),
        UseTree::Name(id) => seq![id@],
        UseTree::Rename(_, alias) => seq![alias@],
        UseTree::Glob => seq![glob_segment()],
        UseTree::Group(items) => group_names(t, items@.len()),
    }
}

/// The local names of the first `k` members of a group `t`.
pub open spec fn group_names(t: UseTree, k: nat) -> Seq<Seq<char>>
    decreases t, 0nat, k,
{
    match t {
        UseTree::Group(items) => {
            if k == 0 || k > items@.len() {
                Seq::empty()
            } else {
                group_names(t, (k - 1) as nat) + use_names(items@[k - 1])
            }
        },
        _ => Seq::empty(),
    }
}

/// Appends to `out` the local name of every path that `tree` imports.
pub fn collect_use_names(tree: &UseTree, out: &mut Vec<String>)
    ensures
        final(out).deep_view() == old(out).deep_view() + use_names(*tree),
    decreases *tree, 1nat, 0nat,
{
    let ghost before = out.deep_view();
    match tree {
        UseTree::Path(_, sub) => {
            collect_use_names(sub, out);
        },
        UseTree::Name(id) => {
            out.push(id.clone());
            proof {
                assert(out.deep_view() =~= before + use_names(*tree));
            }
        },
        UseTree::Rename(_, alias) => {
            out.push(alias.clone());
            proof {
                assert(out.deep_view() =~= before + use_names(*tree));
            }
        },
        UseTree::Glob => {
            proof {
                reveal_strlit("*");
                assert("*"@ =~= glob_segment());
            }
            out.push(String::from_str("*"));
            proof {
                assert(out.deep_view() =~= before + use_names(*tree));
            }
        },
        UseTree::Group(items) => {
            let mut j: usize = 0;
            while j < items.len()
                invariant
                    j <= items.len(),
                    *tree == UseTree::Group(*items),
                    out.deep_view() == old(out).deep_view() + group_names(*tree, j as nat),
                decreases items.len() - j,
            {
                collect_use_names(&items[j], out);
                proof {
                    assert(out.deep_view() =~= old(out).deep_view() + group_names(*tree, (j + 1) as nat));
                }
                j = j + 1;
            }
        },
    }
}

/// Each path of a use tree has one local name.
pub proof fn lemma_names_match_paths(prefix: Seq<Seq<char>>, t: UseTree)
    ensures
        use_names(t).len() == use_paths(prefix, t).len(),
    decreases t, 1nat, 0nat,
{
    match t {
        UseTree::Path(id, sub) => lemma_names_match_paths(prefix.push(id@), *sub),
        UseTree::Group(items) => lemma_group_names_match(prefix, t, items@.len()),
        _ => {},
    }
}

proof fn lemma_group_names_match(prefix: Seq<Seq<char>>, t: UseTree, k: nat)
    ensures
        group_names(t, k).len() == group_paths(prefix, t, k).len(),
    decreases t, 0nat, k,
{
    match t {
        UseTree::Group(items) => {
            if k > 0 && k <= items@.len() {
                lemma_group_names_match(prefix, t, (k - 1) as nat);
                lemma_names_match_paths(prefix, items@[k - 1]);
            }
        },
        _ => {},
    }
}

/// A copy of `prefix` with `seg` appended.
pub fn extend_path(prefix: &Vec<String>, seg: &str) -> (r: Vec<String>)
    ensures
        r.deep_view() == prefix.deep_view().push(seg@),
{
    let mut r: Vec<String> = Vec::new();
    let mut i: usize = 0;
    while i < prefix.len()
        invariant
            i <= prefix.len(),
            r@.len() == i,
            forall|k: int| 0 <= k < i ==> r@[k]@ == prefix@[k]@,
        decreases prefix.len() - i,
    {
        r.push(prefix[i].clone());
        i = i + 1;
    }
    r.push(String::from_str(seg));
    proof {
        assert(r.deep_view() =~= prefix.deep_view().push(seg@));
    }
    r
}

/// Appends to `out` every path that `tree` imports, each prefixed by
/// `prefix`, in source order.
pub fn collect_use_paths(prefix: &Vec<String>, tree: &UseTree, out: &mut Vec<Vec<String>>)
    ensures
        final(out).deep_view() == old(out).deep_view() + use_paths(prefix.deep_view(), *tree),
    decreases *tree, 1nat, 0nat,
{
    match tree {
        UseTree::Path(id, sub) => {
            let next = extend_path(prefix, id.as_str());
            collect_use_paths(&next, sub, out);
        },
        UseTree::Name(id) => {
            let ghost before = out.deep_view();
            out.push(extend_path(prefix, id.as_str()));
            proof {
                assert(out.deep_view() =~= before.push(prefix.deep_view().push(id@)));
                assert(final(out).deep_view() =~= old(out).deep_view() + use_paths(prefix.deep_view(), *tree));
            }
        },
        UseTree::Rename(id, _) => {
            let ghost before = out.deep_view();
            out.push(extend_path(prefix, id.as_str()));
            proof {
                assert(out.deep_view() =~= before.push(prefix.deep_view().push(id@)));
                assert(final(out).deep_view() =~= old(out).deep_view() + use_paths(prefix.deep_view(), *tree));
            }
        },
        UseTree::Glob => {
            let star = extend_path(prefix, "*");
            proof {
                reveal_strlit("*");
                assert("*"@ =~= glob_segment());
            }
            let ghost before = out.deep_view();
            out.push(star);
            proof {
                assert(out.deep_view() =~= before.push(prefix.deep_view().push(glob_segment())));
                assert(final(out).deep_view() =~= old(out).deep_view() + use_paths(prefix.deep_view(), *tree));
            }
        },
        UseTree::Group(items) => {
            let mut j: usize = 0;
            while j < items.len()
                invariant
                    j <= items.len(),
                    *tree == UseTree::Group(*items),
                    out.deep_view() == old(out).deep_view() + group_paths(prefix.deep_view(), *tree, j as nat),
                decreases items.len() - j,
            {
                let ghost before = out.deep_view();
                collect_use_paths(prefix, &items[j], out);
                proof {
                    assert(out.deep_view() =~= old(out).deep_view() + group_paths(prefix.deep_view(), *tree, (j + 1) as nat));
                }
                j = j + 1;
            }
        },
    }
}

} // verus!
