//! The text sanitizer: strips C-style comments from source text before
//! matching, so that intrinsic names appearing only in comments produce no
//! matches.
//!
//! The two passes run in a fixed order.  First, every line is truncated at its
//! first `//` and terminated by a newline (one newline is emitted per line, so
//! the output always ends with a newline and a fully commented line leaves a
//! blank line in place).  Second, every non-overlapping span from a `/*` to
//! the nearest following `*/` is removed, delimiters included; an unterminated
//! `/*` is left untouched together with everything after it.  A `//` on an
//! interior line of a multi-line block comment is therefore stripped before
//! the block pass runs, which can corrupt such a block's boundaries; the order
//! is kept deliberately.

use crate::text::{
    chars_of, find_char, find_char_from, find_two, find_two_in, lemma_find_char_from,
    lemma_find_two_in, string_of,
};
use vstd::prelude::*;

verus! {

/// The line `t[from..end)` truncated at its first `//`.
pub open spec fn stripped_line(t: Seq<char>, from: int, end: int) -> Seq<char> {
    let j = find_two_in(t, '/', '/', from, end);
    if j < 0 {
        t.subrange(from, end)
    } else {
        t.subrange(from, j)
    }
}

/// Line-comment removal from position `from` on: each line is truncated at
/// its first `//` and terminated by a newline.
pub open spec fn strip_lines_from(t: Seq<char>, from: int) -> Seq<char>
    recommends
        0 <= from <= t.len(),
    decreases t.len() - from,
    via strip_lines_from_decreases
{
    let n = find_char_from(t, '\n', from);
    if n < 0 {
        stripped_line(t, from, t.len() as int) + seq!['\n']
    } else {
        stripped_line(t, from, n) + seq!['\n'] + strip_lines_from(t, n + 1)
    }
}

#[via_fn]
proof fn strip_lines_from_decreases(t: Seq<char>, from: int) {
    if 0 <= from {
        lemma_find_char_from(t, '\n', from);
    } else {
        assert(find_char_from(t, '\n', from) == -1);
    }
}

/// Block-comment removal from position `from` on: every span from a `/*` to
/// the nearest following `*/` is removed, delimiters included; an unterminated
/// `/*` is left untouched together with everything after it.
pub open spec fn strip_blocks_from(t: Seq<char>, from: int) -> Seq<char>
    recommends
        0 <= from <= t.len(),
    decreases t.len() - from,
    via strip_blocks_from_decreases
{
    let i = find_two_in(t, '/', '*', from, t.len() as int);
    if i < 0 {
        t.subrange(from, t.len() as int)
    } else {
        let j = find_two_in(t, '*', '/', i + 2, t.len() as int);
        if j < 0 {
            t.subrange(from, t.len() as int)
        } else {
            t.subrange(from, i) + strip_blocks_from(t, j + 2)
        }
    }
}

#[via_fn]
proof fn strip_blocks_from_decreases(t: Seq<char>, from: int) {
    let i = find_two_in(t, '/', '*', from, t.len() as int);
    if 0 <= from {
        lemma_find_two_in(t, '/', '*', from, t.len() as int);
    }
    if i >= 0 {
        lemma_find_two_in(t, '*', '/', i + 2, t.len() as int);
    }
}

/// Line-comment removal over the whole text.
pub open spec fn strip_lines(t: Seq<char>) -> Seq<char> {
    strip_lines_from(t, 0)
}

/// Block-comment removal over the whole text.
pub open spec fn strip_blocks(t: Seq<char>) -> Seq<char> {
    strip_blocks_from(t, 0)
}

/// The sanitized form of `t`: line comments stripped first, block comments
/// second.
pub open spec fn sanitize(t: Seq<char>) -> Seq<char> {
    strip_blocks(strip_lines(t))
}

/// Appends `text[from..to)` to `out`.
fn push_range(out: &mut Vec<char>, text: &Vec<char>, from: usize, to: usize)
    requires
        from <= to <= text@.len(),
    ensures
        final(out)@ == old(out)@ + text@.subrange(from as int, to as int),
{
    let mut i: usize = from;
    while i < to
        invariant
            from <= i <= to <= text@.len(),
            out@ == old(out)@ + text@.subrange(from as int, i as int),
        decreases to - i,
    {
        out.push(text[i]);
        proof {
            assert(out@ =~= old(out)@ + text@.subrange(from as int, i + 1));
        }
        i = i + 1;
    }
    proof {
        assert(out@ =~= old(out)@ + text@.subrange(from as int, to as int));
    }
}

/// First pass: truncates each line at its first `//`, emitting one
/// newline-terminated line per input line.
pub fn strip_line_comments(text: &Vec<char>) -> (out: Vec<char>)
    ensures
        out@ == strip_lines(text@),
{
    let n = text.len();
    let mut out: Vec<char> = Vec::new();
    let mut p: usize = 0;
    proof {
        assert(Seq::<char>::empty() + strip_lines_from(text@, 0) =~= strip_lines_from(text@, 0));
    }
    loop
        invariant_except_break
            strip_lines_from(text@, 0) == out@ + strip_lines_from(text@, p as int),
        invariant
            p <= n,
            n == text@.len(),
        ensures
            out@ == strip_lines_from(text@, 0),
        decreases n - p,
    {
        let ghost prev = out@;
        let ghost rest = strip_lines_from(text@, p as int);
        let nl = find_char(text, '\n', p);
        let line_end = match nl {
            Some(k) => k,
            None => n,
        };
        let ct = find_two(text, '/', '/', p, line_end);
        let copy_end = match ct {
            Some(k) => k,
            None => line_end,
        };
        proof {
            if find_two_in(text@, '/', '/', p as int, line_end as int) >= 0 {
                lemma_find_two_in(text@, '/', '/', p as int, line_end as int);
            }
            assert(text@.subrange(p as int, copy_end as int) == stripped_line(
                text@,
                p as int,
                line_end as int,
            ));
        }
        push_range(&mut out, text, p, copy_end);
        out.push('\n');
        let ghost sl = stripped_line(text@, p as int, line_end as int);
        proof {
            assert(out@ =~= prev + (sl + seq!['\n']));
        }
        match nl {
            Some(k) => {
                proof {
                    assert(rest == (sl + seq!['\n']) + strip_lines_from(text@, k + 1));
                    assert(prev + ((sl + seq!['\n']) + strip_lines_from(text@, k + 1)) =~= (prev + (
                    sl + seq!['\n'])) + strip_lines_from(text@, k + 1));
                }
                p = k + 1;
            },
            None => {
                proof {
                    assert(rest == sl + seq!['\n']);
                }
                break ;
            },
        }
    }
    out
}

/// Second pass: removes every non-overlapping `/* ... */` span; an
/// unterminated `/*` is left untouched together with everything after it.
pub fn strip_block_comments(text: &Vec<char>) -> (out: Vec<char>)
    ensures
        out@ == strip_blocks(text@),
{
    let n = text.len();
    let mut out: Vec<char> = Vec::new();
    let mut p: usize = 0;
    proof {
        assert(Seq::<char>::empty() + strip_blocks_from(text@, 0) =~= strip_blocks_from(text@, 0));
    }
    loop
        invariant_except_break
            strip_blocks_from(text@, 0) == out@ + strip_blocks_from(text@, p as int),
        invariant
            p <= n,
            n == text@.len(),
        ensures
            out@ == strip_blocks_from(text@, 0),
        decreases n - p,
    {
        let ghost prev = out@;
        let ghost rest = strip_blocks_from(text@, p as int);
        let io = find_two(text, '/', '*', p, n);
        match io {
            None => {
                push_range(&mut out, text, p, n);
                proof {
                    assert(rest == text@.subrange(p as int, n as int));
                }
                break ;
            },
            Some(i) => {
                let jo = find_two(text, '*', '/', i + 2, n);
                match jo {
                    None => {
                        push_range(&mut out, text, p, n);
                        proof {
                            assert(rest == text@.subrange(p as int, n as int));
                        }
                        break ;
                    },
                    Some(j) => {
                        push_range(&mut out, text, p, i);
                        proof {
                            assert(rest == text@.subrange(p as int, i as int)
                                + strip_blocks_from(text@, j + 2));
                            assert(prev + (text@.subrange(p as int, i as int)
                                + strip_blocks_from(text@, j + 2)) =~= (prev + text@.subrange(
                                p as int,
                                i as int,
                            )) + strip_blocks_from(text@, j + 2));
                        }
                        p = j + 2;
                    },
                }
            },
        }
    }
    out
}

/// Strips both comment forms from `file_contents`: line comments first, block
/// comments second.
pub fn remove_comments(file_contents: &str) -> (r: String)
    ensures
        r@ == sanitize(file_contents@),
{
    let cs = chars_of(file_contents);
    let pass1 = strip_line_comments(&cs);
    let pass2 = strip_block_comments(&pass1);
    string_of(&pass2)
}

} // verus!
