use vstd::prelude::*;
use crate::ast_bundler::{ConstItem, LitValue, SourceUnit, decimal, push_decimal};
use crate::filename_generator::{
    FilenameGenerator, collapse_underscores, collapsed, name_form, trimmed, trim_trailing_underscores,
};
use crate::text::{chars_of, push_char, push_chars};
use crate::tokens::same_text;

verus! {

/// The title given by the first `_PROBLEM` constant whose value is a string,
/// from index `k` on.
pub open spec fn problem_name_from(cs: Seq<ConstItem>, k: int) -> Option<Seq<char>>
    decreases cs.len() - k,
{
    if k < 0 || k >= cs.len() {
        None
    } else if cs[k].name@ == "_PROBLEM"@ && cs[k].value is Str {
        Some(cs[k].value->Str_0@)
    } else {
        problem_name_from(cs, k + 1)
    }
}

pub open spec fn ascii_alnum(c: char) -> bool {
    ('a' <= c && c <= 'z') || ('A' <= c && c <= 'Z') || ('0' <= c && c <= '9')
}

/// `s` without its leading underscores.
pub open spec fn trimmed_start(s: Seq<char>) -> Seq<char>
    decreases s.len(),
{
    if s.len() > 0 && s[0] == '_' {
        trimmed_start(s.subrange(1, s.len() as int))
    } else {
        s
    }
}

/// `s` with every character that is not an ASCII letter or digit made `_`,
/// the underscores at both ends cut, and every run of underscores made one.
pub open spec fn sanitized(s: Seq<char>) -> Seq<char> {
    collapsed(trimmed(trimmed_start(Seq::new(s.len(), |i: int| if ascii_alnum(s[i]) { s[i] } else { '_' }))))
}

/// The raw text of a constant's value, where it is a string or an integer.
pub open spec fn raw_value(v: LitValue) -> Option<Seq<char>> {
    match v {
        LitValue::Str(s) => Some(s@),
        LitValue::Int(s) => Some(s@),
        LitValue::Other => None,
    }
}

/// The identifier given by the first `ID` or `_ID` constant, from index `k`
/// on, whose value is a string or an integer that is not empty once
/// sanitized.
pub open spec fn id_from(cs: Seq<ConstItem>, k: int) -> Option<Seq<char>>
    decreases cs.len() - k,
{
    if k < 0 || k >= cs.len() {
        None
    } else if (cs[k].name@ == "ID"@ || cs[k].name@ == "_ID"@) && raw_value(cs[k].value) is Some && sanitized(
        raw_value(cs[k].value)->Some_0,
    ).len() > 0 {
        Some(sanitized(raw_value(cs[k].value)->Some_0))
    } else {
        id_from(cs, k + 1)
    }
}

/// The output file's name: `solution_<id>.rs` where an identifier is given,
/// else the problem title's file-name form with the time stamp, else
/// `solution_<timestamp>.rs`.
pub open spec fn output_name(unit: SourceUnit, ts: nat) -> Seq<char> {
    match id_from(unit.consts@, 0) {
        Some(id) => "solution_"@ + id + ".rs"@,
        None => match problem_name_from(unit.consts@, 0) {
            Some(p) => name_form(p) + seq!['_'] + decimal(ts) + seq!['.', 'r', 's'],
            None => "solution_"@ + decimal(ts) + ".rs"@,
        },
    }
}

/// The title that the `_PROBLEM` constant gives, if any.
pub fn extract_problem_name(unit: &SourceUnit) -> (r: Option<String>)
    ensures
        crate::file_resolver::opt_view(r) == problem_name_from(unit.consts@, 0),
{
    let cs = &unit.consts;
    let mut k: usize = 0;
    while k < cs.len()
        invariant
            k <= cs@.len(),
            cs@ == unit.consts@,
            problem_name_from(cs@, 0) == problem_name_from(cs@, k as int),
        decreases cs.len() - k,
    {
        if same_text(cs[k].name.as_str(), "_PROBLEM") {
            match &cs[k].value {
                LitValue::Str(s) => {
                    assert(cs@[k as int].value == LitValue::Str(*s));
                    assert(problem_name_from(cs@, k as int) == Some(s@));
                    let r = s.clone();
                    assert(crate::file_resolver::opt_view(Some(r)) == Some(s@));
                    return Some(r);
                },
                _ => {},
            }
        }
        k = k + 1;
    }
    None
}

/// `s` sanitized: ASCII letters and digits kept, anything else made `_`,
/// underscores at both ends cut, runs of underscores made one.
pub fn sanitize(s: &str) -> (r: String)
    ensures
        r@ == sanitized(s@),
{
    let cs = chars_of(s);
    let ghost mapped = Seq::new(s@.len(), |i: int| if ascii_alnum(s@[i]) { s@[i] } else { '_' });
    let mut m: Vec<char> = Vec::new();
    let mut i: usize = 0;
    while i < cs.len()
        invariant
            cs@ == s@,
            i <= cs@.len(),
            mapped == Seq::new(s@.len(), |j: int| if ascii_alnum(s@[j]) { s@[j] } else { '_' }),
            m@ == mapped.subrange(0, i as int),
        decreases cs.len() - i,
    {
        let c = cs[i];
        let keep = ('a' <= c && c <= 'z') || ('A' <= c && c <= 'Z') || ('0' <= c && c <= '9');
        m.push(if keep { c } else { '_' });
        proof {
            assert(m@ =~= mapped.subrange(0, i + 1));
        }
        i = i + 1;
    }
    proof {
        assert(m@ =~= mapped);
    }
    let mut start: usize = 0;
    while start < m.len() && m[start] == '_'
        invariant
            start <= m@.len(),
            trimmed_start(mapped) == trimmed_start(m@.subrange(start as int, m@.len() as int)),
        decreases m.len() - start,
    {
        proof {
            let rest = m@.subrange(start as int, m@.len() as int);
            assert(rest.subrange(1, rest.len() as int) =~= m@.subrange(start + 1, m@.len() as int));
        }
        start = start + 1;
    }
    let mut head = String::new();
    push_chars(&mut head, &m, start, m.len());
    proof {
        assert(head@ =~= trimmed_start(mapped));
    }
    let t = trim_trailing_underscores(head.as_str());
    collapse_underscores(t.as_str())
}

/// The identifier that an `ID` or `_ID` constant gives, sanitized, if any.
pub fn extract_id(unit: &SourceUnit) -> (r: Option<String>)
    ensures
        crate::file_resolver::opt_view(r) == id_from(unit.consts@, 0),
{
    let cs = &unit.consts;
    let mut k: usize = 0;
    while k < cs.len()
        invariant
            k <= cs@.len(),
            cs@ == unit.consts@,
            id_from(cs@, 0) == id_from(cs@, k as int),
        decreases cs.len() - k,
    {
        let n = cs[k].name.as_str();
        if same_text(n, "ID") || same_text(n, "_ID") {
            let raw = match &cs[k].value {
                LitValue::Str(s) => Some(s),
                LitValue::Int(s) => Some(s),
                LitValue::Other => None,
            };
            match raw {
                Some(s) => {
                    assert(raw_value(cs@[k as int].value) == Some(s@));
                    let v = sanitize(s.as_str());
                    if v.unicode_len() > 0 {
                        assert(id_from(cs@, k as int) == Some(v@));
                        return Some(v);
                    }
                },
                None => {},
            }
        }
        k = k + 1;
    }
    None
}

/// The name of the file that the bundle of `unit` is written to.
pub fn output_filename(unit: &SourceUnit, timestamp: u64) -> (r: String)
    ensures
        r@ == output_name(*unit, timestamp as nat),
{
    match extract_id(unit) {
        Some(id) => {
            let mut r = String::from_str("solution_");
            r.append(id.as_str());
            r.append(".rs");
            r
        },
        None => match extract_problem_name(unit) {
            Some(p) => FilenameGenerator::new().generate_filename(p.as_str(), timestamp),
            None => {
                let mut r = String::from_str("solution_");
                push_decimal(&mut r, timestamp);
                r.append(".rs");
                r
            },
        },
    }
}

} // verus!
