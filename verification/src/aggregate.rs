//! The result aggregator: folds per-file match results into one deduplicated
//! run-wide set of matched names, and reduces that set to the deduplicated
//! union of the CPU feature flags the matched intrinsics require.  Both unions
//! are idempotent and commutative, so the result does not depend on the order
//! in which files were processed.

use crate::catalog::IntrinsicView;
use crate::index::NameIndex;
use crate::nameset::{names_prefix_set, NameSet};
use vstd::prelude::*;

verus! {

/// The union of a sequence of sets.
pub open spec fn union_of(sets: Seq<Set<Seq<char>>>) -> Set<Seq<char>> {
    Set::new(|n: Seq<char>| exists|i: int| 0 <= i < sets.len() && (#[trigger] sets[i]).contains(n))
}

/// The models of a sequence of match results.
pub open spec fn match_views(results: Seq<NameSet>) -> Seq<Set<Seq<char>>> {
    results.map_values(|m: NameSet| m@)
}

/// The union, over every member of `names` that `idx` knows, of that record's
/// CPU feature flags.
pub open spec fn flags_of(
    names: Set<Seq<char>>,
    idx: Map<Seq<char>, IntrinsicView>,
) -> Set<Seq<char>> {
    Set::new(
        |f: Seq<char>|
            exists|n: Seq<char>|
                #[trigger] names.contains(n) && idx.contains_key(n)
                    && idx[n].synopsis.cpuids.contains(f),
    )
}

/// Unites per-file match results into the run-wide set of matched names.
pub fn union_results(per_file: &Vec<NameSet>) -> (r: NameSet)
    ensures
        r.wf(),
        r@ == union_of(match_views(per_file@)),
{
    let mut r = NameSet::new();
    let n = per_file.len();
    let mut i: usize = 0;
    proof {
        assert(r@ =~= union_of(match_views(per_file@.take(0))));
    }
    while i < n
        invariant
            r.wf(),
            n == per_file@.len(),
            i <= n,
            r@ == union_of(match_views(per_file@.take(i as int))),
        decreases n - i,
    {
        let ghost before = r@;
        r.union_with(&per_file[i]);
        proof {
            let a = match_views(per_file@.take(i as int));
            let b = match_views(per_file@.take(i + 1));
            assert forall|x: Seq<char>|
                before.union((per_file@[i as int])@).contains(x) implies union_of(b).contains(
                x,
            ) by {
                if before.contains(x) {
                    let k = choose|k: int| 0 <= k < a.len() && (#[trigger] a[k]).contains(x);
                    assert(b[k].contains(x));
                } else {
                    assert(b[i as int].contains(x));
                }
            }
            assert forall|x: Seq<char>| union_of(b).contains(x) implies before.union(
                (per_file@[i as int])@,
            ).contains(x) by {
                let k = choose|k: int| 0 <= k < b.len() && (#[trigger] b[k]).contains(x);
                if k < i {
                    assert(a[k].contains(x));
                }
            }
            assert(r@ =~= union_of(b));
        }
        i = i + 1;
    }
    proof {
        assert(per_file@.take(n as int) =~= per_file@);
    }
    r
}

/// Reduces a set of matched names to the deduplicated union of the CPU
/// feature flags required by the intrinsics carrying those names.  A name the
/// index does not know contributes nothing.
pub fn collect_cpu_flags(matched: &NameSet, by_name: &NameIndex) -> (r: NameSet)
    requires
        by_name.wf(),
    ensures
        r.wf(),
        r@ == flags_of(matched@, by_name@),
{
    let mut r = NameSet::new();
    let n = matched.names.len();
    let mut i: usize = 0;
    proof {
        assert forall|x: Seq<char>| !flags_of(
            names_prefix_set(matched.names@, 0),
            by_name@,
        ).contains(x) by {
            if flags_of(names_prefix_set(matched.names@, 0), by_name@).contains(x) {
                let nm = choose|nm: Seq<char>|
                    #[trigger] names_prefix_set(matched.names@, 0).contains(nm)
                        && by_name@.contains_key(nm) && by_name@[nm].synopsis.cpuids.contains(x);
                let k = choose|k: int|
                    0 <= k < 0 && k < matched.names@.len() && (#[trigger] matched.names@[k])@
                        == nm;
            }
        }
        assert(r@ =~= flags_of(names_prefix_set(matched.names@, 0), by_name@));
    }
    while i < n
        invariant
            r.wf(),
            by_name.wf(),
            n == matched.names@.len(),
            i <= n,
            r@ == flags_of(names_prefix_set(matched.names@, i as int), by_name@),
        decreases n - i,
    {
        let ghost before = r@;
        let name = &matched.names[i];
        let found = by_name.get(name);
        match found {
            Some(intr) => {
                r.insert_all(&intr.synopsis.cpuids);
                proof {
                    let cp = names_prefix_set(
                        intr.synopsis.cpuids@,
                        intr.synopsis.cpuids@.len() as int,
                    );
                    let after = flags_of(
                        names_prefix_set(matched.names@, i + 1),
                        by_name@,
                    );
                    assert forall|x: Seq<char>| before.union(cp).contains(x) implies after.contains(
                        x,
                    ) by {
                        if before.contains(x) {
                            let nm = choose|nm: Seq<char>|
                                #[trigger] names_prefix_set(matched.names@, i as int).contains(nm)
                                    && by_name@.contains_key(nm) && by_name@[nm].synopsis.cpuids.contains(x);
                            assert(names_prefix_set(matched.names@, i + 1).contains(nm));
                        } else {
                            let l = choose|l: int|
                                0 <= l < intr.synopsis.cpuids@.len() && (
                                #[trigger] intr.synopsis.cpuids@[l])@ == x;
                            assert(intr@.synopsis.cpuids[l] == x);
                            assert(by_name@[name@].synopsis.cpuids.contains(x));
                            assert(names_prefix_set(matched.names@, i + 1).contains(name@));
                        }
                    }
                    assert forall|x: Seq<char>| after.contains(x) implies before.union(cp).contains(
                        x,
                    ) by {
                        let nm = choose|nm: Seq<char>|
                            #[trigger] names_prefix_set(matched.names@, i + 1).contains(nm)
                                && by_name@.contains_key(nm) && by_name@[nm].synopsis.cpuids.contains(x);
                        let k = choose|k: int|
                            0 <= k < i + 1 && k < matched.names@.len() && (
                            #[trigger] matched.names@[k])@ == nm;
                        if k < i {
                            assert(names_prefix_set(matched.names@, i as int).contains(nm));
                        } else {
                            assert(nm == name@);
                            let l = choose|l: int|
                                0 <= l < intr@.synopsis.cpuids.len() && intr@.synopsis.cpuids[l]
                                    == x;
                            assert((intr.synopsis.cpuids@[l])@ == x);
                            assert(cp.contains(x));
                        }
                    }
                    assert(r@ =~= after);
                }
            },
            None => {
                proof {
                    let after = flags_of(
                        names_prefix_set(matched.names@, i + 1),
                        by_name@,
                    );
                    assert forall|x: Seq<char>| before.contains(x) implies after.contains(x) by {
                        let nm = choose|nm: Seq<char>|
                            #[trigger] names_prefix_set(matched.names@, i as int).contains(nm)
                                && by_name@.contains_key(nm) && by_name@[nm].synopsis.cpuids.contains(x);
                        assert(names_prefix_set(matched.names@, i + 1).contains(nm));
                    }
                    assert forall|x: Seq<char>| after.contains(x) implies before.contains(x) by {
                        let nm = choose|nm: Seq<char>|
                            #[trigger] names_prefix_set(matched.names@, i + 1).contains(nm)
                                && by_name@.contains_key(nm) && by_name@[nm].synopsis.cpuids.contains(x);
                        let k = choose|k: int|
                            0 <= k < i + 1 && k < matched.names@.len() && (
                            #[trigger] matched.names@[k])@ == nm;
                        assert(k < i);
                        assert(names_prefix_set(matched.names@, i as int).contains(nm));
                    }
                    assert(r@ =~= after);
                }
            },
        }
        i = i + 1;
    }
    proof {
        assert forall|x: Seq<char>| names_prefix_set(matched.names@, n as int).contains(x) implies
            matched@.contains(x) by {
            let k = choose|k: int|
                0 <= k < n && k < matched.names@.len() && (#[trigger] matched.names@[k])@ == x;
            assert((matched.names@[k])@ == x);
        }
        assert(names_prefix_set(matched.names@, n as int) =~= matched@);
    }
    r
}

/// The run-wide result: the deduplicated set of matched intrinsic names, and
/// the deduplicated set of CPU feature flags they require.
pub struct AggregateResult {
    pub intrinsics: NameSet,
    pub cpu_flags: NameSet,
}

/// Folds per-file match results into the run-wide result: the union of the
/// match sets by name, and the union of the flags of every matched intrinsic.
pub fn aggregate(per_file: &Vec<NameSet>, by_name: &NameIndex) -> (r: AggregateResult)
    requires
        by_name.wf(),
    ensures
        r.intrinsics.wf(),
        r.cpu_flags.wf(),
        r.intrinsics@ == union_of(match_views(per_file@)),
        r.cpu_flags@ == flags_of(union_of(match_views(per_file@)), by_name@),
{
    let intrinsics = union_results(per_file);
    let cpu_flags = collect_cpu_flags(&intrinsics, by_name);
    AggregateResult { intrinsics, cpu_flags }
}

/// Uniting two batches of per-file match sets in either order yields the same
/// run-wide set: the fold is commutative.
pub proof fn lemma_union_of_commutative(a: Seq<Set<Seq<char>>>, b: Seq<Set<Seq<char>>>)
    ensures
        union_of(a + b) == union_of(b + a),
{
    assert forall|x: Seq<char>| union_of(a + b).contains(x) implies union_of(b + a).contains(
        x,
    ) by {
        let i = choose|i: int| 0 <= i < (a + b).len() && (#[trigger] (a + b)[i]).contains(x);
        if i < a.len() {
            assert((b + a)[b.len() + i].contains(x));
        } else {
            assert((b + a)[i - a.len()].contains(x));
        }
    }
    assert forall|x: Seq<char>| union_of(b + a).contains(x) implies union_of(a + b).contains(
        x,
    ) by {
        let i = choose|i: int| 0 <= i < (b + a).len() && (#[trigger] (b + a)[i]).contains(x);
        if i < b.len() {
            assert((a + b)[a.len() + i].contains(x));
        } else {
            assert((a + b)[i - b.len()].contains(x));
        }
    }
    assert(union_of(a + b) =~= union_of(b + a));
}

/// Uniting a batch of per-file match sets with itself adds nothing: the fold
/// is idempotent.
pub proof fn lemma_union_of_idempotent(a: Seq<Set<Seq<char>>>)
    ensures
        union_of(a + a) == union_of(a),
{
    assert forall|x: Seq<char>| union_of(a + a).contains(x) implies union_of(a).contains(x) by {
        let i = choose|i: int| 0 <= i < (a + a).len() && (#[trigger] (a + a)[i]).contains(x);
        if i < a.len() {
            assert(a[i].contains(x));
        } else {
            assert(a[i - a.len()].contains(x));
        }
    }
    assert forall|x: Seq<char>| union_of(a).contains(x) implies union_of(a + a).contains(x) by {
        let i = choose|i: int| 0 <= i < a.len() && (#[trigger] a[i]).contains(x);
        assert((a + a)[i].contains(x));
    }
    assert(union_of(a + a) =~= union_of(a));
}

} // verus!
