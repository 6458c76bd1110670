//! The matcher: given sanitized text and the catalog's name index, determines
//! the subset of catalog entries whose name occurs in the text.
//!
//! A name is matched as a literal substring of the text (the safe reading of
//! names that could contain pattern metacharacters); since a literal never
//! fails to compile, every catalog entry takes part in every scan.  Only
//! presence matters: repeated occurrences add nothing, and the result does not
//! depend on the order in which the index stores its entries.

use crate::catalog::IntrinsicView;
use crate::index::{has_name, NameIndex};
use crate::nameset::NameSet;
use crate::text::{chars_of, occurs, occurs_in};
use vstd::prelude::*;

verus! {

/// The names of `idx` that occur in `text`.
pub open spec fn matched_names(
    text: Seq<char>,
    idx: Map<Seq<char>, IntrinsicView>,
) -> Set<Seq<char>> {
    Set::new(|n: Seq<char>| idx.contains_key(n) && occurs(text, n))
}

/// Scans `file_contents` for every name of the index, returning the set of
/// names that occur in it at least once.
pub fn check_for_intrinsics(file_contents: &str, by_name: &NameIndex) -> (r: NameSet)
    requires
        by_name.wf(),
    ensures
        r.wf(),
        r@ == matched_names(file_contents@, by_name@),
{
    let text = chars_of(file_contents);
    let mut r = NameSet::new();
    let n = by_name.entries.len();
    let mut i: usize = 0;
    proof {
        assert(r@ =~= Set::new(
            |nm: Seq<char>|
                occurs(file_contents@, nm) && exists|k: int|
                    0 <= k < 0 && (#[trigger] by_name.entries_view()[k]).signature.name == nm,
        ));
    }
    while i < n
        invariant
            by_name.wf(),
            n == by_name.entries@.len(),
            i <= n,
            r.wf(),
            text@ == file_contents@,
            r@ == Set::new(
                |nm: Seq<char>|
                    occurs(file_contents@, nm) && exists|k: int|
                        0 <= k < i && (#[trigger] by_name.entries_view()[k]).signature.name == nm,
            ),
        decreases n - i,
    {
        let ghost before = r@;
        let name = &by_name.entries[i].signature.name;
        proof {
            assert(by_name.entries_view()[i as int] == by_name.entries@[i as int]@);
        }
        let pat = chars_of(name.as_str());
        let hit = occurs_in(&text, &pat);
        if hit {
            r.insert(name.clone());
        }
        proof {
            let entries = by_name.entries_view();
            let after = Set::new(
                |nm: Seq<char>|
                    occurs(file_contents@, nm) && exists|k: int|
                        0 <= k < i + 1 && (#[trigger] entries[k]).signature.name == nm,
            );
            assert forall|nm: Seq<char>| r@.contains(nm) implies after.contains(nm) by {
                if !(hit && nm == name@) {
                    assert(before.contains(nm));
                    let k = choose|k: int|
                        0 <= k < i && (#[trigger] entries[k]).signature.name == nm;
                    assert(entries[k].signature.name == nm);
                }
            }
            assert forall|nm: Seq<char>| after.contains(nm) implies r@.contains(nm) by {
                let k = choose|k: int|
                    0 <= k < i + 1 && (#[trigger] entries[k]).signature.name == nm;
                if k < i {
                    assert(before.contains(nm));
                } else {
                    assert(nm == name@ && occurs(file_contents@, nm));
                }
            }
            assert(r@ =~= after);
        }
        i = i + 1;
    }
    proof {
        by_name.lemma_view_domain();
        let entries = by_name.entries_view();
        assert forall|nm: Seq<char>| r@.contains(nm) implies matched_names(
            file_contents@,
            by_name@,
        ).contains(nm) by {
            let k = choose|k: int|
                0 <= k < n && (#[trigger] entries[k]).signature.name == nm;
            assert(has_name(entries, nm));
        }
        assert forall|nm: Seq<char>| matched_names(file_contents@, by_name@).contains(nm) implies
            r@.contains(nm) by {
            let k = choose|k: int| 0 <= k < entries.len() && (#[trigger] entries[k]).signature.name
                == nm;
            assert(entries[k].signature.name == nm);
        }
        assert(r@ =~= matched_names(file_contents@, by_name@));
    }
    r
}

} // verus!
