//! What holds of sanitized text.  The central statement: a second sanitizing
//! pass removes nothing further — it only appends the one newline that every
//! pass appends after the final line.  (Exact idempotence fails for every
//! input, by precisely that trailing newline.)

use crate::sanitize::{
    sanitize, strip_blocks, strip_blocks_from, strip_lines, strip_lines_from, stripped_line,
};
use crate::text::{find_char_from, find_two_in, lemma_find_char_from, lemma_find_two_in, two_at};
use vstd::prelude::*;

verus! {

/// No two-character delimiter `ab` occurs anywhere in `t`.
pub open spec fn two_free(t: Seq<char>, a: char, b: char) -> bool {
    forall|k: int| !(#[trigger] two_at(t, k, a, b))
}

/// Some `/*` in `t` is followed by a `*/`: the block pass would remove a span.
pub open spec fn has_pair(t: Seq<char>) -> bool {
    exists|i: int, j: int|
        #![trigger two_at(t, i, '/', '*'), two_at(t, j, '*', '/')]
        two_at(t, i, '/', '*') && two_at(t, j, '*', '/') && i + 2 <= j
}

/// Concatenation keeps `ab`-freeness unless the seam itself spells `ab`.
proof fn lemma_two_free_concat(x: Seq<char>, y: Seq<char>, a: char, b: char)
    requires
        two_free(x, a, b),
        two_free(y, a, b),
        x.len() > 0 && y.len() > 0 ==> !(x.last() == a && y.first() == b),
    ensures
        two_free(x + y, a, b),
{
    assert forall|k: int| !(#[trigger] two_at(x + y, k, a, b)) by {
        if two_at(x + y, k, a, b) {
            if k + 2 <= x.len() {
                assert((x + y)[k] == x[k]);
                assert((x + y)[k + 1] == x[k + 1]);
                assert(two_at(x, k, a, b));
            } else if k >= x.len() {
                assert((x + y)[k] == y[k - x.len()]);
                assert((x + y)[k + 1] == y[k + 1 - x.len()]);
                assert(two_at(y, k - x.len(), a, b));
            } else {
                assert((x + y)[k] == x[x.len() - 1]);
                assert((x + y)[k + 1] == y[0]);
            }
        }
    }
}

/// A subrange of `ab`-free text is `ab`-free.
proof fn lemma_two_free_subrange(t: Seq<char>, a: char, b: char, lo: int, hi: int)
    requires
        two_free(t, a, b),
        0 <= lo <= hi <= t.len(),
    ensures
        two_free(t.subrange(lo, hi), a, b),
{
    let s = t.subrange(lo, hi);
    assert forall|k: int| !(#[trigger] two_at(s, k, a, b)) by {
        if two_at(s, k, a, b) {
            assert(s[k] == t[lo + k]);
            assert(s[k + 1] == t[lo + k + 1]);
            assert(two_at(t, lo + k, a, b));
        }
    }
}

/// A line truncated at its first `//` holds no `//`.
proof fn lemma_stripped_line_two_free(t: Seq<char>, from: int, end: int)
    requires
        0 <= from <= end <= t.len(),
    ensures
        two_free(stripped_line(t, from, end), '/', '/'),
{
    lemma_find_two_in(t, '/', '/', from, end);
    let j = find_two_in(t, '/', '/', from, end);
    let sl = stripped_line(t, from, end);
    assert forall|k: int| !(#[trigger] two_at(sl, k, '/', '/')) by {
        if two_at(sl, k, '/', '/') {
            assert(sl[k] == t[from + k]);
            assert(sl[k + 1] == t[from + k + 1]);
        }
    }
}

/// The output of the line pass holds no `//` at all.
proof fn lemma_strip_lines_two_free(t: Seq<char>, from: int)
    requires
        0 <= from <= t.len(),
    ensures
        two_free(strip_lines_from(t, from), '/', '/'),
    decreases t.len() - from,
{
    lemma_find_char_from(t, '\n', from);
    let n = find_char_from(t, '\n', from);
    let nl = seq!['\n'];
    assert forall|k: int| !(#[trigger] two_at(nl, k, '/', '/')) by {}
    if n < 0 {
        lemma_stripped_line_two_free(t, from, t.len() as int);
        lemma_two_free_concat(stripped_line(t, from, t.len() as int), nl, '/', '/');
    } else {
        lemma_stripped_line_two_free(t, from, n);
        lemma_strip_lines_two_free(t, n + 1);
        let sl = stripped_line(t, from, n);
        lemma_two_free_concat(sl, nl, '/', '/');
        assert((sl + nl).last() == '\n');
        lemma_two_free_concat(sl + nl, strip_lines_from(t, n + 1), '/', '/');
    }
}

/// On `//`-free text the line pass changes nothing but appending one newline.
proof fn lemma_strip_lines_id(t: Seq<char>, from: int)
    requires
        0 <= from <= t.len(),
        two_free(t, '/', '/'),
    ensures
        strip_lines_from(t, from) == t.subrange(from, t.len() as int) + seq!['\n'],
    decreases t.len() - from,
{
    lemma_find_char_from(t, '\n', from);
    let n = find_char_from(t, '\n', from);
    if n < 0 {
        lemma_find_two_in(t, '/', '/', from, t.len() as int);
        if find_two_in(t, '/', '/', from, t.len() as int) >= 0 {
            let r = find_two_in(t, '/', '/', from, t.len() as int);
            assert(two_at(t, r, '/', '/'));
        }
    } else {
        lemma_find_two_in(t, '/', '/', from, n);
        if find_two_in(t, '/', '/', from, n) >= 0 {
            let r = find_two_in(t, '/', '/', from, n);
            assert(two_at(t, r, '/', '/'));
        }
        lemma_strip_lines_id(t, n + 1);
        assert(t.subrange(from, n) + seq!['\n'] + (t.subrange(n + 1, t.len() as int)
            + seq!['\n']) =~= t.subrange(from, t.len() as int) + seq!['\n']);
    }
}

/// On `//`-free text the block pass leaves output that is still `//`-free and
/// holds no removable `/* ... */` span.
proof fn lemma_strip_blocks_clean(t: Seq<char>, from: int)
    requires
        0 <= from <= t.len(),
        two_free(t, '/', '/'),
    ensures
        two_free(strip_blocks_from(t, from), '/', '/'),
        !has_pair(strip_blocks_from(t, from)),
    decreases t.len() - from,
{
    let out = strip_blocks_from(t, from);
    let len = t.len() as int;
    lemma_find_two_in(t, '/', '*', from, len);
    let i = find_two_in(t, '/', '*', from, len);
    if i < 0 {
        lemma_two_free_subrange(t, '/', '/', from, len);
        if has_pair(out) {
            let (al, be) = choose|al: int, be: int|
                #![trigger two_at(out, al, '/', '*'), two_at(out, be, '*', '/')]
                two_at(out, al, '/', '*') && two_at(out, be, '*', '/') && al + 2 <= be;
            assert(out[al] == t[from + al]);
            assert(out[al + 1] == t[from + al + 1]);
            assert(false);
        }
    } else {
        lemma_find_two_in(t, '*', '/', i + 2, len);
        let j = find_two_in(t, '*', '/', i + 2, len);
        if j < 0 {
            lemma_two_free_subrange(t, '/', '/', from, len);
            if has_pair(out) {
                let (al, be) = choose|al: int, be: int|
                    #![trigger two_at(out, al, '/', '*'), two_at(out, be, '*', '/')]
                    two_at(out, al, '/', '*') && two_at(out, be, '*', '/') && al + 2 <= be;
                assert(out[al] == t[from + al]);
                assert(out[al + 1] == t[from + al + 1]);
                assert(two_at(t, from + al, '/', '*'));
                assert(from + al >= i);
                assert(out[be] == t[from + be]);
                assert(out[be + 1] == t[from + be + 1]);
                assert(two_at(t, from + be, '*', '/'));
                assert(false);
            }
        } else {
            let a = t.subrange(from, i);
            let b = strip_blocks_from(t, j + 2);
            lemma_strip_blocks_clean(t, j + 2);
            lemma_two_free_subrange(t, '/', '/', from, i);
            if a.len() > 0 && b.len() > 0 && a.last() == '/' {
                assert(a[a.len() - 1] == t[i - 1]);
                assert(two_at(t, i - 1, '/', '/'));
            }
            lemma_two_free_concat(a, b, '/', '/');
            if has_pair(out) {
                let (al, be) = choose|al: int, be: int|
                    #![trigger two_at(out, al, '/', '*'), two_at(out, be, '*', '/')]
                    two_at(out, al, '/', '*') && two_at(out, be, '*', '/') && al + 2 <= be;
                if al + 2 <= a.len() {
                    assert(out[al] == a[al]);
                    assert(out[al + 1] == a[al + 1]);
                    assert(a[al] == t[from + al]);
                    assert(a[al + 1] == t[from + al + 1]);
                    assert(two_at(t, from + al, '/', '*'));
                    assert(false);
                } else if al == a.len() - 1 {
                    assert(out[al] == a[a.len() - 1]);
                    assert(a[a.len() - 1] == t[i - 1]);
                    assert(two_at(t, i, '/', '*'));
                    assert(two_at(t, i - 1, '/', '/'));
                    assert(false);
                } else {
                    assert(al >= a.len());
                    assert(out[al] == b[al - a.len()]);
                    assert(out[al + 1] == b[al + 1 - a.len()]);
                    assert(two_at(b, al - a.len(), '/', '*'));
                    assert(out[be] == b[be - a.len()]);
                    assert(out[be + 1] == b[be + 1 - a.len()]);
                    assert(two_at(b, be - a.len(), '*', '/'));
                    assert(has_pair(b));
                    assert(false);
                }
            }
        }
    }
}

/// Appending a newline introduces no removable span.
proof fn lemma_pair_free_newline(u: Seq<char>)
    requires
        !has_pair(u),
    ensures
        !has_pair(u + seq!['\n']),
{
    let v = u + seq!['\n'];
    if has_pair(v) {
        let (al, be) = choose|al: int, be: int|
            #![trigger two_at(v, al, '/', '*'), two_at(v, be, '*', '/')]
            two_at(v, al, '/', '*') && two_at(v, be, '*', '/') && al + 2 <= be;
        assert(v[al + 1] != '\n');
        assert(al + 2 <= u.len());
        assert(v[al] == u[al]);
        assert(v[al + 1] == u[al + 1]);
        assert(two_at(u, al, '/', '*'));
        assert(v[be + 1] != '\n');
        assert(be + 2 <= u.len());
        assert(v[be] == u[be]);
        assert(v[be + 1] == u[be + 1]);
        assert(two_at(u, be, '*', '/'));
        assert(false);
    }
}

/// Text without a removable span passes through the block pass unchanged.
proof fn lemma_strip_blocks_id(t: Seq<char>, from: int)
    requires
        0 <= from <= t.len(),
        !has_pair(t),
    ensures
        strip_blocks_from(t, from) == t.subrange(from, t.len() as int),
{
    let len = t.len() as int;
    lemma_find_two_in(t, '/', '*', from, len);
    let i = find_two_in(t, '/', '*', from, len);
    if i >= 0 {
        lemma_find_two_in(t, '*', '/', i + 2, len);
        let j = find_two_in(t, '*', '/', i + 2, len);
        if j >= 0 {
            assert(two_at(t, i, '/', '*'));
            assert(two_at(t, j, '*', '/'));
            assert(has_pair(t));
        }
    }
}

/// Sanitizing already sanitized text removes nothing further: the second pass
/// only appends the one newline that every pass appends after the final line.
/// Exact idempotence therefore fails for every input, by that one character.
pub proof fn lemma_sanitize_second_pass(t: Seq<char>)
    ensures
        sanitize(sanitize(t)) == sanitize(t) + seq!['\n'],
{
    let v = strip_lines(t);
    let u = strip_blocks(v);
    lemma_strip_lines_two_free(t, 0);
    lemma_strip_blocks_clean(v, 0);
    lemma_strip_lines_id(u, 0);
    assert(u.subrange(0, u.len() as int) =~= u);
    assert(strip_lines(u) == u + seq!['\n']);
    lemma_pair_free_newline(u);
    lemma_strip_blocks_id(u + seq!['\n'], 0);
    assert((u + seq!['\n']).subrange(0, (u + seq!['\n']).len() as int) =~= u + seq!['\n']);
}

} // verus!
