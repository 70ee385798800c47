use vstd::prelude::*;

verus! {

/// One token of a declaration, as the parser saw it.
#[derive(Debug, PartialEq, Eq)]
pub enum Tok {
    /// An identifier or a keyword.
    Ident(String),
    /// The path separator `::`.
    Sep,
    /// Any other punctuation or delimiter; the flag says that the next
    /// token follows it with no space.
    Punct(String, bool),
    /// A literal, spelled as in the source.
    Literal(String),
}

/// The name an identifier token carries (empty for other tokens).
pub open spec fn tok_name(t: Tok) -> Seq<char> {
    match t {
        Tok::Ident(s) => s@,
        _ => Seq::empty(),
    }
}

/// `t` is the punctuation `s`.
pub open spec fn is_punct(t: Tok, s: Seq<char>) -> bool {
    match t {
        Tok::Punct(x, _) => x@ == s,
        _ => false,
    }
}

/// The index just past the `>` that closes the angle brackets open at `j`,
/// `depth` deep, or -1 when they are never closed.
pub open spec fn angle_close(t: Seq<Tok>, j: int, depth: nat) -> int
    decreases t.len() - j,
{
    if j < 0 || j >= t.len() {
        -1
    } else if is_punct(t[j], "<"@) {
        angle_close(t, j + 1, depth + 1)
    } else if is_punct(t[j], ">"@) {
        if depth <= 1 {
            j + 1
        } else {
            angle_close(t, j + 1, (depth - 1) as nat)
        }
    } else {
        angle_close(t, j + 1, depth)
    }
}

/// The index just past the path segment whose identifier is at `i`: past
/// its generic arguments `::<...>` where it has them.
pub open spec fn seg_end(t: Seq<Tok>, i: int) -> int {
    if 0 <= i && i + 2 < t.len() && t[i + 1] is Sep && is_punct(t[i + 2], "<"@) && angle_close(t, i + 3, 1) > 0 {
        angle_close(t, i + 3, 1)
    } else {
        i + 1
    }
}

/// The path goes on past the segment at `i`: `::` and another identifier.
pub open spec fn continues(t: Seq<Tok>, i: int) -> bool {
    0 <= i && seg_end(t, i) + 1 < t.len() && t[seg_end(t, i)] is Sep && t[seg_end(t, i) + 1] is Ident
}

/// The segment at `i` is followed by `::` (another segment, a group or a
/// glob).
pub open spec fn more(t: Seq<Tok>, i: int) -> bool {
    0 <= i && seg_end(t, i) < t.len() && t[seg_end(t, i)] is Sep
}

pub proof fn lemma_angle_close(t: Seq<Tok>, j: int, depth: nat)
    ensures
        angle_close(t, j, depth) == -1 || (j < angle_close(t, j, depth) <= t.len() && is_punct(
            t[angle_close(t, j, depth) - 1],
            ">"@,
        )),
    decreases t.len() - j,
{
    if 0 <= j < t.len() {
        if is_punct(t[j], "<"@) {
            lemma_angle_close(t, j + 1, depth + 1);
        } else if is_punct(t[j], ">"@) {
            if depth > 1 {
                lemma_angle_close(t, j + 1, (depth - 1) as nat);
            }
        } else {
            lemma_angle_close(t, j + 1, depth);
        }
    }
}

pub proof fn lemma_seg_end(t: Seq<Tok>, i: int)
    requires
        0 <= i < t.len(),
    ensures
        i < seg_end(t, i) <= t.len(),
        seg_end(t, i) == i + 1 || is_punct(t[seg_end(t, i) - 1], ">"@),
{
    lemma_angle_close(t, i + 3, 1);
}

/// Where the last segment of the path that runs on from `i` stands.
pub open spec fn last_seg(t: Seq<Tok>, i: int) -> int
    decreases t.len() - i,
    via last_seg_decreases
{
    if continues(t, i) {
        last_seg(t, seg_end(t, i) + 1)
    } else {
        i
    }
}

#[via_fn]
proof fn last_seg_decreases(t: Seq<Tok>, i: int) {
    if continues(t, i) {
        lemma_seg_end(t, i);
    }
}

/// The identifiers of the path that runs on from `i`, in order.
pub open spec fn path_segs(t: Seq<Tok>, i: int) -> Seq<Seq<char>>
    decreases t.len() - i,
    via path_segs_decreases
{
    if continues(t, i) {
        seq![tok_name(t[i])] + path_segs(t, seg_end(t, i) + 1)
    } else {
        seq![tok_name(t[i])]
    }
}

#[via_fn]
proof fn path_segs_decreases(t: Seq<Tok>, i: int) {
    if continues(t, i) {
        lemma_seg_end(t, i);
    }
}

/// `::` at `k` follows a segment: an identifier, or the `>` closing its
/// generic arguments.
pub open spec fn after_segment(t: Seq<Tok>, k: int) -> bool {
    k >= 1 && t[k] is Sep && (t[k - 1] is Ident || is_punct(t[k - 1], ">"@))
}

/// A path starts at `i`: an identifier that does not continue another path.
pub open spec fn starts_path(t: Seq<Tok>, i: int) -> bool {
    &&& 0 <= i < t.len()
    &&& t[i] is Ident
    &&& !after_segment(t, i - 1)
}

/// The path starting at `i` is flattened: it begins with the library root,
/// or it begins with a module alias and `::` follows its first segment.
pub open spec fn strips(t: Seq<Tok>, i: int, root: Seq<char>, aliases: Seq<Seq<char>>) -> bool {
    tok_name(t[i]) == root || (more(t, i) && aliases.contains(tok_name(t[i])))
}

pub proof fn lemma_last_seg(t: Seq<Tok>, i: int)
    requires
        0 <= i < t.len(),
        t[i] is Ident,
    ensures
        i <= last_seg(t, i) < t.len(),
        t[last_seg(t, i)] is Ident,
        !continues(t, last_seg(t, i)),
        last_seg(t, i) == i || after_segment(t, last_seg(t, i) - 1),
        continues(t, i) ==> last_seg(t, i) > i,
    decreases t.len() - i,
{
    lemma_seg_end(t, i);
    if continues(t, i) {
        lemma_last_seg(t, seg_end(t, i) + 1);
        if last_seg(t, i) == seg_end(t, i) + 1 {
            assert(t[seg_end(t, i) - 1] is Ident || is_punct(t[seg_end(t, i) - 1], ">"@));
        }
    }
}

/// `t` from index `i` on, with every flattened path cut down to its last
/// segment and the leading `::` of such a path dropped; a flattened path of
/// one segment that `::` follows (a group or a glob comes next) is dropped
/// together with that `::`.
pub open spec fn rewritten(t: Seq<Tok>, i: int, root: Seq<char>, aliases: Seq<Seq<char>>) -> Seq<Tok>
    decreases t.len() - i,
    via rewritten_decreases
{
    if i < 0 || i >= t.len() {
        Seq::empty()
    } else if t[i] is Sep && starts_path(t, i + 1) && strips(t, i + 1, root, aliases) {
        rewritten(t, i + 1, root, aliases)
    } else if starts_path(t, i) && strips(t, i, root, aliases) {
        if !continues(t, i) && more(t, i) {
            rewritten(t, seg_end(t, i) + 1, root, aliases)
        } else {
            seq![t[last_seg(t, i)]] + rewritten(t, last_seg(t, i) + 1, root, aliases)
        }
    } else {
        seq![t[i]] + rewritten(t, i + 1, root, aliases)
    }
}

#[via_fn]
proof fn rewritten_decreases(t: Seq<Tok>, i: int, root: Seq<char>, aliases: Seq<Seq<char>>) {
    if 0 <= i < t.len() {
        lemma_seg_end(t, i);
        if t[i] is Ident {
            lemma_last_seg(t, i);
        }
    }
}

/// Every path from index `i` on that begins with the library root and has
/// more than one segment, as its list of segments, in order.
pub open spec fn lib_refs(t: Seq<Tok>, i: int, root: Seq<char>) -> Seq<Seq<Seq<char>>>
    decreases t.len() - i,
{
    if i < 0 || i >= t.len() {
        Seq::empty()
    } else if starts_path(t, i) && tok_name(t[i]) == root && continues(t, i) {
        seq![path_segs(t, i)] + lib_refs(t, i + 1, root)
    } else {
        lib_refs(t, i + 1, root)
    }
}

/// A copy of `t` that keeps its strings.
pub fn clone_tok(t: &Tok) -> (r: Tok)
    ensures
        r == *t,
{
    match t {
        Tok::Ident(s) => Tok::Ident(s.clone()),
        Tok::Sep => Tok::Sep,
        Tok::Punct(s, j) => Tok::Punct(s.clone(), *j),
        Tok::Literal(s) => Tok::Literal(s.clone()),
    }
}

fn is_sep(t: &Tok) -> (r: bool)
    ensures
        r == (*t is Sep),
{
    match t {
        Tok::Sep => true,
        _ => false,
    }
}

fn is_ident(t: &Tok) -> (r: bool)
    ensures
        r == (*t is Ident),
{
    match t {
        Tok::Ident(_) => true,
        _ => false,
    }
}

/// Whether two strings hold the same characters.
pub fn same_text(a: &str, b: &str) -> (r: bool)
    ensures
        r == (a@ == b@),
{
    String::from_str(a) == String::from_str(b)
}

/// The name an identifier token carries (empty for other tokens).
fn name_of(t: &Tok) -> (r: String)
    ensures
        r@ == tok_name(*t),
{
    match t {
        Tok::Ident(s) => s.clone(),
        _ => String::new(),
    }
}

/// Whether the identifier token `t` is named `name`.
fn named(t: &Tok, name: &str) -> (r: bool)
    ensures
        r == (*t is Ident && tok_name(*t) == name@),
{
    match t {
        Tok::Ident(s) => same_text(s.as_str(), name),
        _ => false,
    }
}

/// Whether `list` holds `name`.
pub fn holds_name(list: &Vec<String>, name: &str) -> (r: bool)
    ensures
        r == list.deep_view().contains(name@),
{
    let mut k: usize = 0;
    while k < list.len()
        invariant
            k <= list.len(),
            forall|m: int| 0 <= m < k ==> list.deep_view()[m] != name@,
        decreases list.len() - k,
    {
        if same_text(list[k].as_str(), name) {
            proof {
                assert(list.deep_view()[k as int] == name@);
            }
            return true;
        }
        k = k + 1;
    }
    false
}

fn punct_is(t: &Tok, p: &str) -> (r: bool)
    ensures
        r == is_punct(*t, p@),
{
    match t {
        Tok::Punct(x, _) => same_text(x.as_str(), p),
        _ => false,
    }
}

fn angle_close_at(t: &Vec<Tok>, j: usize) -> (r: Option<usize>)
    requires
        j >= 1,
    ensures
        match r {
            Some(k) => k as int == angle_close(t@, j as int, 1) && k as int > 0,
            None => angle_close(t@, j as int, 1) <= 0,
        },
{
    proof {
        lemma_angle_close(t@, j as int, 1);
    }
    let n = t.len();
    let mut k: usize = j;
    let mut depth: usize = 1;
    while k < n
        invariant
            n == t@.len(),
            1 <= j <= k,
            1 <= depth <= k - j + 1,
            angle_close(t@, k as int, depth as nat) == angle_close(t@, j as int, 1),
        decreases t.len() - k,
    {
        if punct_is(&t[k], "<") {
            depth = depth + 1;
        } else if punct_is(&t[k], ">") {
            if depth <= 1 {
                return Some(k + 1);
            }
            depth = depth - 1;
        }
        k = k + 1;
    }
    None
}

fn seg_end_at(t: &Vec<Tok>, i: usize) -> (r: usize)
    requires
        i < t.len(),
    ensures
        r as int == seg_end(t@, i as int),
{
    if t.len() - i > 2 && is_sep(&t[i + 1]) && punct_is(&t[i + 2], "<") {
        match angle_close_at(t, i + 3) {
            Some(k) => {
                return k;
            },
            None => {},
        }
    }
    i + 1
}

fn continues_at(t: &Vec<Tok>, i: usize) -> (r: bool)
    requires
        i < t.len(),
    ensures
        r == continues(t@, i as int),
{
    proof {
        lemma_seg_end(t@, i as int);
    }
    let e = seg_end_at(t, i);
    e < t.len() && t.len() - e > 1 && is_sep(&t[e]) && is_ident(&t[e + 1])
}

fn more_at(t: &Vec<Tok>, i: usize) -> (r: bool)
    requires
        i < t.len(),
    ensures
        r == more(t@, i as int),
{
    let e = seg_end_at(t, i);
    e < t.len() && is_sep(&t[e])
}

fn last_seg_at(t: &Vec<Tok>, i: usize) -> (r: usize)
    requires
        i < t.len(),
        t@[i as int] is Ident,
    ensures
        r as int == last_seg(t@, i as int),
{
    let mut j: usize = i;
    while continues_at(t, j)
        invariant
            i <= j < t.len(),
            t@[j as int] is Ident,
            last_seg(t@, j as int) == last_seg(t@, i as int),
        decreases t.len() - j,
    {
        proof {
            lemma_seg_end(t@, j as int);
        }
        j = seg_end_at(t, j) + 1;
    }
    j
}

fn starts_path_at(t: &Vec<Tok>, i: usize) -> (r: bool)
    ensures
        r == starts_path(t@, i as int),
{
    i < t.len() && is_ident(&t[i]) && !(i >= 2 && is_sep(&t[i - 1]) && (is_ident(&t[i - 2]) || punct_is(&t[i - 2], ">")))
}

fn strips_at(t: &Vec<Tok>, i: usize, root: &str, aliases: &Vec<String>) -> (r: bool)
    requires
        i < t.len(),
    ensures
        r == strips(t@, i as int, root@, aliases.deep_view()),
{
    let name = name_of(&t[i]);
    same_text(name.as_str(), root) || (more_at(t, i) && holds_name(aliases, name.as_str()))
}

/// The tokens with every path flattened: a path that begins with `root`, or
/// that has more than one segment and begins with a name in `aliases`, is
/// replaced by its last segment, and its leading `::` is dropped.
pub fn strip_paths(t: &Vec<Tok>, root: &str, aliases: &Vec<String>) -> (r: Vec<Tok>)
    ensures
        r@ == rewritten(t@, 0, root@, aliases.deep_view()),
{
    let ghost al = aliases.deep_view();
    let mut out: Vec<Tok> = Vec::new();
    let mut i: usize = 0;
    while i < t.len()
        invariant
            i <= t.len(),
            out@ + rewritten(t@, i as int, root@, al) == rewritten(t@, 0, root@, al),
            al == aliases.deep_view(),
        decreases t.len() - i,
    {
        let ghost before = out@;
        if is_sep(&t[i]) && starts_path_at(t, i + 1) && strips_at(t, i + 1, root, aliases) {
            i = i + 1;
        } else if starts_path_at(t, i) && strips_at(t, i, root, aliases) {
            proof {
                lemma_seg_end(t@, i as int);
                lemma_last_seg(t@, i as int);
            }
            if !continues_at(t, i) && more_at(t, i) {
                i = seg_end_at(t, i) + 1;
            } else {
                let e = last_seg_at(t, i);
                out.push(clone_tok(&t[e]));
                proof {
                    assert(before + rewritten(t@, i as int, root@, al) =~= out@ + rewritten(t@, e + 1, root@, al));
                }
                i = e + 1;
            }
        } else {
            out.push(clone_tok(&t[i]));
            proof {
                assert(before + rewritten(t@, i as int, root@, al) =~= out@ + rewritten(t@, i + 1, root@, al));
            }
            i = i + 1;
        }
    }
    proof {
        assert(out@ =~= rewritten(t@, 0, root@, al));
    }
    out
}

/// The identifiers of the path that runs on from index `i`.
pub fn path_segments(t: &Vec<Tok>, i: usize) -> (r: Vec<String>)
    requires
        i < t.len(),
        t@[i as int] is Ident,
    ensures
        r.deep_view() == path_segs(t@, i as int),
{
    let mut out: Vec<String> = Vec::new();
    let mut j: usize = i;
    loop
        invariant
            i <= j < t.len(),
            t@[j as int] is Ident,
            out.deep_view() + path_segs(t@, j as int) == path_segs(t@, i as int),
        decreases t.len() - j,
    {
        let ghost before = out.deep_view();
        match &t[j] {
            Tok::Ident(s) => out.push(s.clone()),
            _ => {},
        }
        if continues_at(t, j) {
            proof {
                lemma_seg_end(t@, j as int);
            }
            let next = seg_end_at(t, j) + 1;
            proof {
                assert(before + path_segs(t@, j as int) =~= out.deep_view() + path_segs(t@, next as int));
            }
            j = next;
        } else {
            proof {
                assert(out.deep_view() =~= path_segs(t@, i as int));
            }
            return out;
        }
    }
}

/// Every path in `t` that begins with `root` and has more than one segment,
/// as its list of segments, in order of appearance.
pub fn library_refs(t: &Vec<Tok>, root: &str) -> (r: Vec<Vec<String>>)
    ensures
        r.deep_view() == lib_refs(t@, 0, root@),
{
    let mut out: Vec<Vec<String>> = Vec::new();
    let mut i: usize = 0;
    while i < t.len()
        invariant
            i <= t.len(),
            out.deep_view() + lib_refs(t@, i as int, root@) == lib_refs(t@, 0, root@),
        decreases t.len() - i,
    {
        let ghost before = out.deep_view();
        if starts_path_at(t, i) && named(&t[i], root) && continues_at(t, i) {
            out.push(path_segments(t, i));
            proof {
                assert(before + lib_refs(t@, i as int, root@) =~= out.deep_view() + lib_refs(t@, i + 1, root@));
            }
        }
        i = i + 1;
    }
    proof {
        assert(out.deep_view() =~= lib_refs(t@, 0, root@));
    }
    out
}

/// How a token is spelled.
pub open spec fn tok_text(t: Tok) -> Seq<char> {
    match t {
        Tok::Ident(s) => s@,
        Tok::Sep => seq![':', ':'],
        Tok::Punct(s, _) => s@,
        Tok::Literal(s) => s@,
    }
}

/// The token is written with no space before the next one.
pub open spec fn joins(t: Tok) -> bool {
    match t {
        Tok::Punct(_, j) => j,
        _ => false,
    }
}

/// The text of a token sequence: tokens separated by one space, except
/// after a token that joins the next.
pub open spec fn rendered(t: Seq<Tok>) -> Seq<char>
    decreases t.len(),
{
    if t.len() == 0 {
        Seq::empty()
    } else {
        let p = t.drop_last();
        let gap = if p.len() == 0 || joins(p.last()) {
            Seq::<char>::empty()
        } else {
            seq![' ']
        };
        rendered(p) + gap + tok_text(t.last())
    }
}

/// Appends the text of the tokens to `out`.
pub fn render_tokens(t: &Vec<Tok>, out: &mut String)
    ensures
        final(out)@ == old(out)@ + rendered(t@),
{
    proof {
        reveal_strlit(" ");
        reveal_strlit("::");
        assert(" "@ =~= seq![' ']);
        assert("::"@ =~= seq![':', ':']);
    }
    let mut i: usize = 0;
    while i < t.len()
        invariant
            i <= t.len(),
            out@ == old(out)@ + rendered(t@.subrange(0, i as int)),
            " "@ == seq![' '],
            "::"@ == seq![':', ':'],
        decreases t.len() - i,
    {
        let ghost before = out@;
        proof {
            assert(t@.subrange(0, i + 1).drop_last() =~= t@.subrange(0, i as int));
        }
        if i > 0 {
            let joined = match &t[i - 1] {
                Tok::Punct(_, j) => *j,
                _ => false,
            };
            if !joined {
                out.append(" ");
            }
        }
        match &t[i] {
            Tok::Ident(s) => out.append(s.as_str()),
            Tok::Sep => out.append("::"),
            Tok::Punct(s, _) => out.append(s.as_str()),
            Tok::Literal(s) => out.append(s.as_str()),
        }
        proof {
            assert(out@ =~= old(out)@ + rendered(t@.subrange(0, i + 1)));
        }
        i = i + 1;
    }
    proof {
        assert(t@.subrange(0, t.len() as int) =~= t@);
    }
}

} // verus!
