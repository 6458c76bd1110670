//! Character-level text primitives: locating characters and two-character
//! delimiters, substring occurrence, and conversions between `&str`/`String`
//! and `Vec<char>`.

use vstd::prelude::*;
use vstd::std_specs::iter::IteratorSpec;

verus! {

broadcast use vstd::string::group_string_axioms;

/// The two-character delimiter `ab` stands at position `i` of `t`.
pub open spec fn two_at(t: Seq<char>, i: int, a: char, b: char) -> bool {
    0 <= i && i + 2 <= t.len() && t[i] == a && t[i + 1] == b
}

/// Position of the first two-character delimiter `ab` at or after `from` whose
/// second character is before `end`; `-1` if there is none.
pub open spec fn find_two_in(t: Seq<char>, a: char, b: char, from: int, end: int) -> int
    decreases end - from,
{
    if from + 2 > end {
        -1
    } else if t[from] == a && t[from + 1] == b {
        from
    } else {
        find_two_in(t, a, b, from + 1, end)
    }
}

/// Position of the first occurrence of `c` at or after `from`; `-1` if none.
pub open spec fn find_char_from(t: Seq<char>, c: char, from: int) -> int
    decreases t.len() - from,
{
    if from < 0 || from >= t.len() {
        -1
    } else if t[from] == c {
        from
    } else {
        find_char_from(t, c, from + 1)
    }
}

/// What `find_two_in` returns: the first delimiter position in range, or `-1`
/// when the range holds none.
pub proof fn lemma_find_two_in(t: Seq<char>, a: char, b: char, from: int, end: int)
    requires
        0 <= from,
        end <= t.len(),
    ensures
        find_two_in(t, a, b, from, end) == -1 || find_two_in(t, a, b, from, end) >= from,
        find_two_in(t, a, b, from, end) >= 0 ==> {
            let r = find_two_in(t, a, b, from, end);
            &&& from <= r
            &&& r + 2 <= end
            &&& two_at(t, r, a, b)
            &&& forall|k: int| from <= k < r ==> !(#[trigger] t[k] == a && t[k + 1] == b)
        },
        find_two_in(t, a, b, from, end) == -1 ==> forall|k: int|
            from <= k && k + 2 <= end ==> !(#[trigger] t[k] == a && t[k + 1] == b),
    decreases end - from,
{
    if from + 2 > end {
    } else if t[from] == a && t[from + 1] == b {
    } else {
        lemma_find_two_in(t, a, b, from + 1, end);
    }
}

/// What `find_char_from` returns: the first position of `c` at or after
/// `from`, or `-1` when `c` does not occur there.
pub proof fn lemma_find_char_from(t: Seq<char>, c: char, from: int)
    requires
        0 <= from,
    ensures
        find_char_from(t, c, from) == -1 || find_char_from(t, c, from) >= from,
        find_char_from(t, c, from) >= 0 ==> {
            let r = find_char_from(t, c, from);
            &&& from <= r < t.len()
            &&& t[r] == c
            &&& forall|k: int| from <= k < r ==> #[trigger] t[k] != c
        },
        find_char_from(t, c, from) == -1 ==> forall|k: int|
            from <= k < t.len() ==> #[trigger] t[k] != c,
    decreases t.len() - from,
{
    if from < 0 || from >= t.len() {
    } else if t[from] == c {
    } else {
        lemma_find_char_from(t, c, from + 1);
    }
}

/// Finds the first occurrence of `c` in `text` at or after `from`.
pub fn find_char(text: &Vec<char>, c: char, from: usize) -> (r: Option<usize>)
    ensures
        match r {
            Some(k) => find_char_from(text@, c, from as int) == k as int && from <= k
                < text@.len(),
            None => find_char_from(text@, c, from as int) == -1,
        },
{
    let mut i: usize = from;
    loop
        invariant
            from <= i,
            find_char_from(text@, c, from as int) == find_char_from(text@, c, i as int),
        decreases text@.len() - i,
    {
        if i >= text.len() {
            return None;
        }
        if text[i] == c {
            return Some(i);
        }
        i = i + 1;
    }
}

/// Finds the first two-character delimiter `ab` in `text` at or after `from`
/// and ending at or before `end`.
pub fn find_two(text: &Vec<char>, a: char, b: char, from: usize, end: usize) -> (r: Option<usize>)
    requires
        end <= text@.len(),
    ensures
        match r {
            Some(k) => find_two_in(text@, a, b, from as int, end as int) == k as int && from <= k
                && k + 2 <= end,
            None => find_two_in(text@, a, b, from as int, end as int) == -1,
        },
{
    let mut i: usize = from;
    loop
        invariant
            from <= i,
            end <= text@.len(),
            find_two_in(text@, a, b, from as int, end as int) == find_two_in(
                text@,
                a,
                b,
                i as int,
                end as int,
            ),
        decreases end - i,
    {
        if i >= end || i + 1 >= end {
            return None;
        }
        if text[i] == a && text[i + 1] == b {
            return Some(i);
        }
        i = i + 1;
    }
}

/// The pattern `p` occurs in `t` starting at position `i`.
pub open spec fn occurs_at(t: Seq<char>, p: Seq<char>, i: int) -> bool {
    0 <= i && i + p.len() <= t.len() && t.subrange(i, i + p.len() as int) == p
}

/// The pattern `p` occurs somewhere in `t`.
pub open spec fn occurs(t: Seq<char>, p: Seq<char>) -> bool {
    exists|i: int| occurs_at(t, p, i)
}

/// Decides whether `pat` stands at position `i` of `text`.
fn matches_at(text: &Vec<char>, pat: &Vec<char>, i: usize) -> (r: bool)
    requires
        i + pat@.len() <= text@.len(),
    ensures
        r == occurs_at(text@, pat@, i as int),
{
    let m = pat.len();
    let tn = text.len();
    let mut j: usize = 0;
    while j < m
        invariant
            m == pat@.len(),
            tn == text@.len(),
            i + m <= tn,
            j <= m,
            forall|l: int| 0 <= l < j ==> text@[i + l] == pat@[l],
        decreases m - j,
    {
        if text[i + j] != pat[j] {
            proof {
                if occurs_at(text@, pat@, i as int) {
                    assert(text@.subrange(i as int, i + pat@.len() as int)[j as int] == pat@[
                        j as int
                    ]);
                }
            }
            return false;
        }
        j = j + 1;
    }
    proof {
        assert(text@.subrange(i as int, i + pat@.len() as int) =~= pat@);
    }
    true
}

/// Decides whether `pat` occurs in `text` as a contiguous run of characters.
pub fn occurs_in(text: &Vec<char>, pat: &Vec<char>) -> (r: bool)
    ensures
        r == occurs(text@, pat@),
{
    let n = text.len();
    let m = pat.len();
    if m == 0 {
        proof {
            assert(text@.subrange(0, 0) =~= pat@);
            assert(occurs_at(text@, pat@, 0));
        }
        return true;
    }
    if m > n {
        proof {
            assert forall|i: int| !occurs_at(text@, pat@, i) by {}
        }
        return false;
    }
    let mut i: usize = 0;
    loop
        invariant
            1 <= m <= n,
            n == text@.len(),
            m == pat@.len(),
            i <= n - m + 1,
            forall|k: int| 0 <= k < i ==> !occurs_at(text@, pat@, k),
        decreases n - m + 1 - i,
    {
        if i > n - m {
            proof {
                assert forall|k: int| !occurs_at(text@, pat@, k) by {
                    if k >= i {
                        assert(k + pat@.len() > text@.len());
                    }
                }
            }
            return false;
        }
        if matches_at(text, pat, i) {
            return true;
        }
        i = i + 1;
    }
}

/// The characters of `s`, in order, as a vector.
pub fn chars_of(s: &str) -> (r: Vec<char>)
    ensures
        r@ == s@,
{
    let mut it = s.chars();
    let mut v: Vec<char> = Vec::new();
    proof {
        assert(v@ + it.remaining() =~= s@);
    }
    loop
        invariant
            it.obeys_prophetic_iter_laws(),
            it.decrease() is Some,
            v@ + it.remaining() == s@,
        ensures
            it.remaining().len() == 0,
            v@ + it.remaining() == s@,
        decreases it.decrease()->0,
    {
        let ghost prev = v@;
        match it.next() {
            Some(c) => {
                v.push(c);
                proof {
                    assert(v@ + it.remaining() =~= s@);
                }
            },
            None => {
                break;
            },
        }
    }
    proof {
        assert(v@ =~= s@);
    }
    v
}

/// Relies on `String: FromIterator<char>`: collecting an iterator of chars
/// builds the string whose characters are exactly those chars, in order.
#[verifier::external_body]
pub fn string_of(v: &Vec<char>) -> (r: String)
    ensures
        r@ == v@,
{
    v.iter().collect()
}

} // verus!
