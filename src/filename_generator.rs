use vstd::prelude::*;
use crate::ast_bundler::{decimal, push_decimal};
use crate::text::{chars_of, push_char, push_chars};

verus! {

/// What one character of a problem name becomes.
#[derive(Debug, Clone, Copy, PartialEq, Eq, Structural)]
pub enum CharClass {
    /// A letter, with its lower-case form.
    Letter(char),
    /// Alphanumeric but not a letter: kept as it is.
    Kept,
    /// The character `.`.
    Dot,
    /// White space.
    Space,
    /// Anything else.
    Other,
}

pub uninterp spec fn alphanumeric(c: char) -> bool;

pub uninterp spec fn alphabetic(c: char) -> bool;

/// White space as Unicode's `White_Space` property has it: tab to
/// carriage return, space, next line, no-break space, ogham space mark, the
/// spaces from en quad to hair space, line and paragraph separators, narrow
/// no-break space, medium mathematical space and ideographic space.
pub open spec fn whitespace(c: char) -> bool {
    ('\u{9}' <= c && c <= '\u{d}') || c == ' ' || c == '\u{85}' || c == '\u{a0}' || c == '\u{1680}' || (
    '\u{2000}' <= c && c <= '\u{200a}') || c == '\u{2028}' || c == '\u{2029}' || c == '\u{202f}' || c == '\u{205f}'
        || c == '\u{3000}'
}

pub uninterp spec fn lowercase_first(c: char) -> char;

/// Relies on std's `char::is_alphanumeric`.
#[verifier::external_body]
fn is_alnum(c: char) -> (r: bool)
    ensures
        r == alphanumeric(c),
{
    c.is_alphanumeric()
}

/// Relies on std's `char::is_alphabetic`.
#[verifier::external_body]
fn is_alpha(c: char) -> (r: bool)
    ensures
        r == alphabetic(c),
{
    c.is_alphabetic()
}

/// Whether `c` is white space.
pub fn is_space(c: char) -> (r: bool)
    ensures
        r == whitespace(c),
{
    ('\u{9}' <= c && c <= '\u{d}') || c == ' ' || c == '\u{85}' || c == '\u{a0}' || c == '\u{1680}' || (
    '\u{2000}' <= c && c <= '\u{200a}') || c == '\u{2028}' || c == '\u{2029}' || c == '\u{202f}' || c == '\u{205f}'
        || c == '\u{3000}'
}

/// Relies on std's `char::to_lowercase`: the first character of the
/// lower-case mapping (which is never empty).
#[verifier::external_body]
fn lower(c: char) -> (r: char)
    ensures
        r == lowercase_first(c),
{
    c.to_lowercase().next().unwrap_or(c)
}

/// Every run of `_` in `s` made a single `_`.
pub open spec fn collapsed(s: Seq<char>) -> Seq<char>
    decreases s.len(),
{
    if s.len() == 0 {
        Seq::empty()
    } else if s.len() >= 2 && s.last() == '_' && s[s.len() - 2] == '_' {
        collapsed(s.drop_last())
    } else {
        collapsed(s.drop_last()).push(s.last())
    }
}

/// Relies on the regex crate: `Regex::replace_all` with the pattern `_+`
/// and the replacement `_` replaces every maximal run of underscores with
/// one underscore.
#[verifier::external_body]
pub(crate) fn collapse_underscores(s: &str) -> (r: String)
    ensures
        r@ == collapsed(s@),
{
    regex::Regex::new(r"_+").unwrap().replace_all(s, "_").into_owned()
}

/// The class of `c`.
pub open spec fn class_of(c: char) -> CharClass {
    if alphanumeric(c) {
        if alphabetic(c) {
            CharClass::Letter(lowercase_first(c))
        } else {
            CharClass::Kept
        }
    } else if c == '.' {
        CharClass::Dot
    } else if whitespace(c) {
        CharClass::Space
    } else {
        CharClass::Other
    }
}

/// The classes of the characters of `s`.
pub open spec fn classes_of(s: Seq<char>) -> Seq<CharClass> {
    Seq::new(s.len(), |i: int| class_of(s[i]))
}

/// From index `i` on: a letter becomes its lower-case form, other
/// alphanumerics stay, a dot becomes `._` and swallows the white space
/// after it, anything else becomes `_`.
pub open spec fn formatted(cs: Seq<char>, cls: Seq<CharClass>, i: int, after_dot: bool) -> Seq<char>
    decreases cls.len() - i,
{
    if i < 0 || i >= cls.len() || i >= cs.len() {
        Seq::empty()
    } else {
        match cls[i] {
            CharClass::Space if after_dot => formatted(cs, cls, i + 1, true),
            CharClass::Letter(l) => seq![l] + formatted(cs, cls, i + 1, false),
            CharClass::Kept => seq![cs[i]] + formatted(cs, cls, i + 1, false),
            CharClass::Dot => seq!['.', '_'] + formatted(cs, cls, i + 1, true),
            _ => seq!['_'] + formatted(cs, cls, i + 1, false),
        }
    }
}

/// `s` without its trailing underscores.
pub open spec fn trimmed(s: Seq<char>) -> Seq<char>
    decreases s.len(),
{
    if s.len() > 0 && s.last() == '_' {
        trimmed(s.drop_last())
    } else {
        s
    }
}

/// The file-name form of a problem name.
pub open spec fn name_form(s: Seq<char>) -> Seq<char> {
    collapsed(trimmed(formatted(s, classes_of(s), 0, false)))
}

/// The characters `cs`, whose classes are `cls`, turned into a file name
/// before trailing underscores are cut: letters lower-cased, other
/// alphanumerics kept, `.` written `._` with the white space after it
/// dropped, and anything else written `_`.
pub fn format_classified(cs: &Vec<char>, cls: &Vec<CharClass>) -> (r: String)
    requires
        cs@.len() == cls@.len(),
    ensures
        r@ == formatted(cs@, cls@, 0, false),
{
    let mut out = String::new();
    let mut i: usize = 0;
    let mut after_dot = false;
    while i < cls.len()
        invariant
            cs@.len() == cls@.len(),
            i <= cls@.len(),
            out@ + formatted(cs@, cls@, i as int, after_dot) == formatted(cs@, cls@, 0, false),
        decreases cls.len() - i,
    {
        let ghost before = out@;
        let ghost was = after_dot;
        match cls[i] {
            CharClass::Space => {
                if !after_dot {
                    push_char(&mut out, '_');
                }
            },
            CharClass::Letter(l) => {
                push_char(&mut out, l);
                after_dot = false;
            },
            CharClass::Kept => {
                push_char(&mut out, cs[i]);
                after_dot = false;
            },
            CharClass::Dot => {
                push_char(&mut out, '.');
                push_char(&mut out, '_');
                after_dot = true;
            },
            CharClass::Other => {
                push_char(&mut out, '_');
                after_dot = false;
            },
        }
        proof {
            assert(before + formatted(cs@, cls@, i as int, was) =~= out@ + formatted(cs@, cls@, i + 1, after_dot));
        }
        i = i + 1;
    }
    proof {
        assert(out@ =~= formatted(cs@, cls@, 0, false));
    }
    out
}

/// `s` without its trailing underscores.
pub fn trim_trailing_underscores(s: &str) -> (r: String)
    ensures
        r@ == trimmed(s@),
{
    let cs = chars_of(s);
    let mut n: usize = cs.len();
    proof {
        assert(cs@.subrange(0, n as int) =~= cs@);
    }
    while n > 0 && cs[n - 1] == '_'
        invariant
            n <= cs@.len(),
            trimmed(s@) == trimmed(cs@.subrange(0, n as int)),
        decreases n,
    {
        proof {
            assert(cs@.subrange(0, n as int).drop_last() =~= cs@.subrange(0, n - 1));
        }
        n = n - 1;
    }
    let mut r = String::new();
    push_chars(&mut r, &cs, 0, n);
    proof {
        assert(r@ =~= cs@.subrange(0, n as int));
    }
    r
}

/// Turns problem names into file names.
pub struct FilenameGenerator {}

impl FilenameGenerator {
    pub fn new() -> Self {
        FilenameGenerator {  }
    }

    /// The file-name form of a problem name: lower-case letters, other
    /// alphanumerics kept, `.` followed by `_`, every other run of characters
    /// a single `_`, and no trailing `_`.
    pub fn format_problem_name(&self, problem_name: &str) -> (r: String)
        ensures
            r@ == name_form(problem_name@),
    {
        let cs = chars_of(problem_name);
        let mut cls: Vec<CharClass> = Vec::new();
        let mut i: usize = 0;
        while i < cs.len()
            invariant
                i <= cs@.len(),
                cls@ == classes_of(cs@).subrange(0, i as int),
            decreases cs.len() - i,
        {
            let c = cs[i];
            let k = if is_alnum(c) {
                if is_alpha(c) {
                    CharClass::Letter(lower(c))
                } else {
                    CharClass::Kept
                }
            } else if c == '.' {
                CharClass::Dot
            } else if is_space(c) {
                CharClass::Space
            } else {
                CharClass::Other
            };
            cls.push(k);
            proof {
                assert(cls@ =~= classes_of(cs@).subrange(0, i + 1));
            }
            i = i + 1;
        }
        proof {
            assert(cls@ =~= classes_of(cs@));
        }
        let f = format_classified(&cs, &cls);
        let t = trim_trailing_underscores(f.as_str());
        collapse_underscores(t.as_str())
    }

    /// The output file name for a problem: its file-name form, `_`, the time
    /// stamp and `.rs`.
    pub fn generate_filename(&self, problem_name: &str, timestamp: u64) -> (r: String)
        ensures
            r@ == name_form(problem_name@) + seq!['_'] + decimal(timestamp as nat) + seq!['.', 'r', 's'],
    {
        let mut r = self.format_problem_name(problem_name);
        push_char(&mut r, '_');
        push_decimal(&mut r, timestamp);
        proof {
            reveal_strlit(".rs");
            assert(".rs"@ =~= seq!['.', 'r', 's']);
        }
        r.append(".rs");
        r
    }
}

impl Default for FilenameGenerator {
    fn default() -> (r: Self) {
        Self::new()
    }
}

} // verus!
