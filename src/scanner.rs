use vstd::prelude::*;
use crate::filename_generator::{is_space, whitespace};
use crate::text::{chars_of, push_chars};

verus! {

/// The words of `s` up to its end, split at white space: those finished,
/// and the one still being read.
pub open spec fn scan(s: Seq<char>) -> (Seq<Seq<char>>, Seq<char>)
    decreases s.len(),
{
    if s.len() == 0 {
        (Seq::empty(), Seq::empty())
    } else {
        let (done, cur) = scan(s.drop_last());
        if whitespace(s.last()) {
            if cur.len() > 0 {
                (done.push(cur), Seq::empty())
            } else {
                (done, cur)
            }
        } else {
            (done, cur.push(s.last()))
        }
    }
}

/// The words of `s`: its maximal runs of characters that are not white
/// space, in order.
pub open spec fn words(s: Seq<char>) -> Seq<Seq<char>> {
    let (done, cur) = scan(s);
    if cur.len() > 0 {
        done.push(cur)
    } else {
        done
    }
}

/// Reads input as white-space separated tokens, in order.
pub struct Scanner {
    buffer: Vec<String>,
    pos: usize,
}

impl Scanner {
    /// The tokens not yet read.
    pub closed spec fn remaining(&self) -> Seq<Seq<char>> {
        self.buffer.deep_view().subrange(self.pos as int, self.buffer@.len() as int)
    }

    pub closed spec fn wf(&self) -> bool {
        self.pos <= self.buffer@.len()
    }

    /// A scanner over the whole of `input`.
    pub fn from_reader(input: &str) -> (r: Self)
        ensures
            r.wf(),
            r.remaining() == words(input@),
    {
        let cs = chars_of(input);
        let mut done: Vec<String> = Vec::new();
        let mut start: usize = 0;
        let mut i: usize = 0;
        while i < cs.len()
            invariant
                cs@ == input@,
                start <= i <= cs@.len(),
                scan(cs@.subrange(0, i as int)) == (done.deep_view(), cs@.subrange(start as int, i as int)),
            decreases cs.len() - i,
        {
            proof {
                assert(cs@.subrange(0, i + 1).drop_last() =~= cs@.subrange(0, i as int));
            }
            if is_space(cs[i]) {
                if start < i {
                    let mut w = String::new();
                    push_chars(&mut w, &cs, start, i);
                    let ghost before = done.deep_view();
                    done.push(w);
                    proof {
                        assert(done.deep_view() =~= before.push(cs@.subrange(start as int, i as int)));
                    }
                }
                start = i + 1;
                proof {
                    assert(cs@.subrange(start as int, i + 1) =~= Seq::<char>::empty());
                }
            } else {
                proof {
                    assert(cs@.subrange(start as int, i + 1) =~= cs@.subrange(start as int, i as int).push(cs@[i as int]));
                }
            }
            i = i + 1;
        }
        proof {
            assert(cs@.subrange(0, i as int) =~= cs@);
        }
        if start < cs.len() {
            let mut w = String::new();
            push_chars(&mut w, &cs, start, cs.len());
            let ghost before = done.deep_view();
            done.push(w);
            proof {
                assert(done.deep_view() =~= before.push(cs@.subrange(start as int, cs@.len() as int)));
            }
        }
        let r = Scanner { buffer: done, pos: 0 };
        proof {
            assert(r.remaining() =~= words(input@));
        }
        r
    }

    /// A scanner over the whole of `input`.
    pub fn from_string(input: String) -> (r: Self)
        ensures
            r.wf(),
            r.remaining() == words(input@),
    {
        Self::from_reader(input.as_str())
    }

    /// The next token, or `None` at the end of the input: reading past the
    /// end is reported to the caller, never a panic.
    pub fn next(&mut self) -> (r: Option<String>)
        requires
            old(self).wf(),
        ensures
            final(self).wf(),
            old(self).remaining().len() == 0 ==> r is None && final(self).remaining() == old(self).remaining(),
            old(self).remaining().len() > 0 ==> r is Some && r->Some_0@ == old(self).remaining()[0]
                && final(self).remaining() == old(self).remaining().drop_first(),
    {
        if self.pos >= self.buffer.len() {
            return None;
        }
        let t = self.buffer[self.pos].clone();
        self.pos = self.pos + 1;
        proof {
            assert(final(self).remaining() =~= old(self).remaining().drop_first());
        }
        Some(t)
    }

    /// The next `n` tokens, or `None`, reading nothing, when fewer remain:
    /// running out of input is reported to the caller, never a panic.
    pub fn dump(&mut self, n: usize) -> (r: Option<Vec<String>>)
        requires
            old(self).wf(),
        ensures
            final(self).wf(),
            old(self).remaining().len() < n ==> r is None && final(self).remaining() == old(self).remaining(),
            old(self).remaining().len() >= n ==> r is Some && r->Some_0.deep_view() == old(self).remaining().subrange(
                0,
                n as int,
            ) && final(self).remaining() == old(self).remaining().subrange(n as int, old(self).remaining().len() as int),
    {
        let len = self.buffer.len();
        if len - self.pos < n {
            return None;
        }
        let ghost rem = old(self).remaining();
        let mut out: Vec<String> = Vec::new();
        let mut k: usize = 0;
        while k < n
            invariant
                len == self.buffer@.len(),
                self.pos + n <= len,
                rem == old(self).remaining(),
                rem == self.buffer.deep_view().subrange(self.pos as int, len as int),
                self.buffer == old(self).buffer,
                self.pos == old(self).pos,
                k <= n,
                out.deep_view() == old(self).remaining().subrange(0, k as int),
            decreases n - k,
        {
            let ghost before = out.deep_view();
            out.push(self.buffer[self.pos + k].clone());
            proof {
                assert(rem[k as int] == self.buffer.deep_view()[self.pos + k]);
                assert(out.deep_view() =~= before.push(rem[k as int]));
                assert(out.deep_view() =~= rem.subrange(0, k + 1));
            }
            k = k + 1;
        }
        self.pos = self.pos + n;
        proof {
            assert(final(self).remaining() =~= old(self).remaining().subrange(n as int, old(self).remaining().len() as int));
        }
        Some(out)
    }
}

} // verus!
