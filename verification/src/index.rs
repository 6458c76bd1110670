//! The catalog's name index: a lookup structure keyed by intrinsic name,
//! covering all seven categories.  Its model is a map built by inserting every
//! record in the canonical enumeration order, so a later record that shares a
//! name with an earlier one overwrites it.

use crate::catalog::{catalog_order, views_of_intrinsics, Intrinsic, IntrinsicView, Intrinsics};
use crate::nameset::NameSet;
use vstd::prelude::*;

verus! {

/// Folds the records of `s` into `m`, keying each by its name; a later record
/// with the same name overwrites an earlier one.
pub open spec fn insert_seq(
    m: Map<Seq<char>, IntrinsicView>,
    s: Seq<IntrinsicView>,
) -> Map<Seq<char>, IntrinsicView>
    decreases s.len(),
{
    if s.len() == 0 {
        m
    } else {
        insert_seq(m, s.drop_last()).insert(s.last().signature.name, s.last())
    }
}

/// The name index of a sequence of records.
pub open spec fn index_map_of(s: Seq<IntrinsicView>) -> Map<Seq<char>, IntrinsicView> {
    insert_seq(Map::empty(), s)
}

/// Some record of `s` has the name `n`.
pub open spec fn has_name(s: Seq<IntrinsicView>, n: Seq<char>) -> bool {
    exists|k: int| 0 <= k < s.len() && (#[trigger] s[k]).signature.name == n
}

/// The names of the records of `s` are pairwise distinct.
pub open spec fn unique_names(s: Seq<IntrinsicView>) -> bool {
    forall|i: int, j: int|
        0 <= i < j < s.len() ==> (#[trigger] s[i]).signature.name != (
        #[trigger] s[j]).signature.name
}

/// Folding distributes over concatenation: folding `a + b` is folding `a`,
/// then folding `b` into the result.
pub proof fn lemma_insert_seq_concat(
    m: Map<Seq<char>, IntrinsicView>,
    a: Seq<IntrinsicView>,
    b: Seq<IntrinsicView>,
)
    ensures
        insert_seq(m, a + b) == insert_seq(insert_seq(m, a), b),
    decreases b.len(),
{
    if b.len() == 0 {
        assert(a + b =~= a);
    } else {
        lemma_insert_seq_concat(m, a, b.drop_last());
        assert((a + b).drop_last() =~= a + b.drop_last());
        assert((a + b).last() == b.last());
    }
}

/// The keys of the fold are the keys of `m` together with the record names.
pub proof fn lemma_insert_seq_domain(
    m: Map<Seq<char>, IntrinsicView>,
    s: Seq<IntrinsicView>,
    n: Seq<char>,
)
    ensures
        insert_seq(m, s).contains_key(n) <==> m.contains_key(n) || has_name(s, n),
    decreases s.len(),
{
    if s.len() == 0 {
    } else {
        lemma_insert_seq_domain(m, s.drop_last(), n);
        if has_name(s.drop_last(), n) {
            let k = choose|k: int|
                0 <= k < s.drop_last().len() && (#[trigger] s.drop_last()[k]).signature.name == n;
            assert(s[k].signature.name == n);
        }
        if s.last().signature.name == n {
            assert(s[s.len() - 1].signature.name == n);
        }
        if has_name(s, n) && s.last().signature.name != n {
            let k = choose|k: int| 0 <= k < s.len() && (#[trigger] s[k]).signature.name == n;
            assert(s.drop_last()[k].signature.name == n);
        }
    }
}

/// With pairwise distinct names, the fold maps each record's name to that
/// record.
pub proof fn lemma_insert_seq_value(
    m: Map<Seq<char>, IntrinsicView>,
    s: Seq<IntrinsicView>,
    k: int,
)
    requires
        unique_names(s),
        0 <= k < s.len(),
    ensures
        insert_seq(m, s).contains_key(s[k].signature.name),
        insert_seq(m, s)[s[k].signature.name] == s[k],
    decreases s.len(),
{
    if k == s.len() - 1 {
        assert(s.last() == s[k]);
    } else {
        assert(unique_names(s.drop_last()));
        assert(s.drop_last()[k] == s[k]);
        lemma_insert_seq_value(m, s.drop_last(), k);
        assert(s[k].signature.name != s.last().signature.name);
    }
}

/// Replacing the record at `k` by one with the same name updates the fold at
/// that name alone.
pub proof fn lemma_insert_seq_update(
    m: Map<Seq<char>, IntrinsicView>,
    s: Seq<IntrinsicView>,
    k: int,
    v: IntrinsicView,
)
    requires
        unique_names(s),
        0 <= k < s.len(),
        s[k].signature.name == v.signature.name,
    ensures
        insert_seq(m, s.update(k, v)) == insert_seq(m, s).insert(v.signature.name, v),
    decreases s.len(),
{
    let nm = v.signature.name;
    if k == s.len() - 1 {
        assert(s.update(k, v).drop_last() =~= s.drop_last());
        assert(s.update(k, v).last() == v);
        assert(insert_seq(m, s.drop_last()).insert(nm, v) =~= insert_seq(m, s.drop_last()).insert(
            s.last().signature.name,
            s.last(),
        ).insert(nm, v));
    } else {
        assert(unique_names(s.drop_last()));
        assert(s.drop_last()[k] == s[k]);
        lemma_insert_seq_update(m, s.drop_last(), k, v);
        assert(s.update(k, v).drop_last() =~= s.drop_last().update(k, v));
        assert(s.update(k, v).last() == s.last());
        assert(s[k].signature.name != s.last().signature.name);
        assert(insert_seq(m, s.drop_last()).insert(nm, v).insert(
            s.last().signature.name,
            s.last(),
        ) =~= insert_seq(m, s.drop_last()).insert(s.last().signature.name, s.last()).insert(nm, v));
    }
}

/// The name index: every catalog record keyed by `signature.name`.
pub struct NameIndex {
    pub entries: Vec<Intrinsic>,
}

impl View for NameIndex {
    type V = Map<Seq<char>, IntrinsicView>;

    open spec fn view(&self) -> Map<Seq<char>, IntrinsicView> {
        index_map_of(views_of_intrinsics(self.entries@))
    }
}

impl NameIndex {
    /// The models of the stored records, in storage order.
    pub open spec fn entries_view(&self) -> Seq<IntrinsicView> {
        views_of_intrinsics(self.entries@)
    }

    /// The stored records carry pairwise distinct names.
    pub open spec fn wf(&self) -> bool {
        unique_names(self.entries_view())
    }

    /// A name is in the index exactly when some stored record carries it.
    pub proof fn lemma_view_domain(&self)
        ensures
            forall|n: Seq<char>|
                #[trigger] self@.contains_key(n) <==> has_name(self.entries_view(), n),
    {
        assert forall|n: Seq<char>|
            #[trigger] self@.contains_key(n) <==> has_name(self.entries_view(), n) by {
            lemma_insert_seq_domain(Map::empty(), self.entries_view(), n);
        }
    }

    /// An empty index.
    pub fn new() -> (r: NameIndex)
        ensures
            r.wf(),
            r@ == Map::<Seq<char>, IntrinsicView>::empty(),
            r.entries_view() == Seq::<IntrinsicView>::empty(),
    {
        let r = NameIndex { entries: Vec::new() };
        proof {
            assert(r.entries_view() =~= Seq::<IntrinsicView>::empty());
        }
        r
    }

    /// Position of the record named `name`, if one is stored.
    fn find_name(&self, name: &String) -> (r: Option<usize>)
        ensures
            match r {
                Some(k) => k < self.entries_view().len()
                    && self.entries_view()[k as int].signature.name == name@,
                None => !has_name(self.entries_view(), name@),
            },
    {
        let n = self.entries.len();
        let mut k: usize = 0;
        while k < n
            invariant
                n == self.entries@.len(),
                k <= n,
                forall|j: int|
                    0 <= j < k ==> (#[trigger] self.entries_view()[j]).signature.name != name@,
            decreases n - k,
        {
            if self.entries[k].signature.name == *name {
                return Some(k);
            }
            k = k + 1;
        }
        None
    }

    /// Inserts a copy of the record under its name, overwriting any stored
    /// record with the same name.
    pub fn put(&mut self, intr: &Intrinsic)
        requires
            old(self).wf(),
        ensures
            final(self).wf(),
            final(self)@ == old(self)@.insert(intr@.signature.name, intr@),
    {
        let found = self.find_name(&intr.signature.name);
        match found {
            Some(k) => {
                let ghost olds = self.entries_view();
                self.entries[k] = intr.duplicate();
                proof {
                    assert(self.entries_view() =~= olds.update(k as int, intr@));
                    lemma_insert_seq_update(Map::empty(), olds, k as int, intr@);
                    assert forall|i: int, j: int| 0 <= i < j < self.entries_view().len() implies (
                    #[trigger] self.entries_view()[i]).signature.name != (
                    #[trigger] self.entries_view()[j]).signature.name by {
                        assert(olds[i].signature.name != olds[j].signature.name);
                    }
                }
            },
            None => {
                let ghost olds = self.entries_view();
                self.entries.push(intr.duplicate());
                proof {
                    assert(self.entries_view() =~= olds.push(intr@));
                    assert(self.entries_view().drop_last() =~= olds);
                    assert forall|i: int, j: int| 0 <= i < j < self.entries_view().len() implies (
                    #[trigger] self.entries_view()[i]).signature.name != (
                    #[trigger] self.entries_view()[j]).signature.name by {
                        if j < olds.len() {
                            assert(olds[i].signature.name != olds[j].signature.name);
                        } else {
                            assert(olds[i].signature.name != intr@.signature.name);
                        }
                    }
                }
            },
        }
    }

    /// Looks a name up, returning the stored record that carries it.
    pub fn get(&self, name: &String) -> (r: Option<&Intrinsic>)
        requires
            self.wf(),
        ensures
            match r {
                Some(intr) => self@.contains_key(name@) && intr@ == self@[name@],
                None => !self@.contains_key(name@),
            },
    {
        let found = self.find_name(name);
        proof {
            self.lemma_view_domain();
        }
        match found {
            Some(k) => {
                proof {
                    lemma_insert_seq_value(Map::empty(), self.entries_view(), k as int);
                }
                Some(&self.entries[k])
            },
            None => None,
        }
    }
}

/// Inserts a copy of every record of `batch`, in order.
fn put_all(idx: &mut NameIndex, batch: &Vec<Intrinsic>)
    requires
        old(idx).wf(),
    ensures
        final(idx).wf(),
        final(idx)@ == insert_seq(old(idx)@, views_of_intrinsics(batch@)),
{
    let n = batch.len();
    let mut i: usize = 0;
    proof {
        assert(views_of_intrinsics(batch@.take(0)) =~= Seq::<IntrinsicView>::empty());
    }
    while i < n
        invariant
            old(idx).wf(),
            idx.wf(),
            n == batch@.len(),
            i <= n,
            idx@ == insert_seq(old(idx)@, views_of_intrinsics(batch@.take(i as int))),
        decreases n - i,
    {
        idx.put(&batch[i]);
        proof {
            let full = views_of_intrinsics(batch@.take(i + 1));
            assert(full.drop_last() =~= views_of_intrinsics(batch@.take(i as int)));
            assert(full.last() == batch@[i as int]@);
        }
        i = i + 1;
    }
    proof {
        assert(batch@.take(n as int) =~= batch@);
    }
}

/// The names of the records of `s`, in order.
pub open spec fn names_of(s: Seq<IntrinsicView>) -> Seq<Seq<char>> {
    s.map_values(|iv: IntrinsicView| iv.signature.name)
}

/// The name `n` is carried by two different records: an insertion under it
/// silently overwrote an earlier record.
pub open spec fn dup_in(ns: Seq<Seq<char>>, n: Seq<char>) -> bool {
    exists|a: int, b: int|
        0 <= a < b < ns.len() && (#[trigger] ns[a]) == n && (#[trigger] ns[b]) == n
}

/// The names carried by two different records among the first `bound`.
pub open spec fn dup_upto(ns: Seq<Seq<char>>, bound: int) -> Set<Seq<char>> {
    Set::new(
        |n: Seq<char>|
            exists|a: int, b: int|
                0 <= a < b < bound && b < ns.len() && (#[trigger] ns[a]) == n && (#[trigger] ns[b])
                    == n,
    )
}

/// Appends the name of every record of `batch` to `out`, in order.
fn push_names(out: &mut Vec<String>, batch: &Vec<Intrinsic>)
    ensures
        final(out)@.len() == old(out)@.len() + batch@.len(),
        forall|k: int| 0 <= k < old(out)@.len() ==> (#[trigger] final(out)@[k]) == old(out)@[k],
        forall|k: int|
            old(out)@.len() <= k < final(out)@.len() ==> (#[trigger] final(out)@[k])@ == batch@[
                k - old(out)@.len()
            ]@.signature.name,
{
    let n = batch.len();
    let mut i: usize = 0;
    while i < n
        invariant
            n == batch@.len(),
            out@.len() == old(out)@.len() + i,
            i <= n,
            forall|k: int| 0 <= k < old(out)@.len() ==> (#[trigger] out@[k]) == old(out)@[k],
            forall|k: int|
                old(out)@.len() <= k < out@.len() ==> (#[trigger] out@[k])@ == batch@[
                    k - old(out)@.len()
                ]@.signature.name,
        decreases n - i,
    {
        out.push(batch[i].signature.name.clone());
        i = i + 1;
    }
}

/// Whether the name at position `k` already stands somewhere before it.
fn name_in_prefix(ns: &Vec<String>, k: usize) -> (r: bool)
    requires
        k < ns@.len(),
    ensures
        r == exists|l: int| 0 <= l < k && (#[trigger] ns@[l])@ == ns@[k as int]@,
{
    let mut l: usize = 0;
    while l < k
        invariant
            k < ns@.len(),
            l <= k,
            forall|q: int| 0 <= q < l ==> (#[trigger] ns@[q])@ != ns@[k as int]@,
        decreases k - l,
    {
        if ns[l] == ns[k] {
            return true;
        }
        l = l + 1;
    }
    false
}

/// The names of a concatenation are the concatenated names.
proof fn lemma_names_of_concat(a: Seq<IntrinsicView>, b: Seq<IntrinsicView>)
    ensures
        names_of(a + b) == names_of(a) + names_of(b),
{
    assert(names_of(a + b) =~= names_of(a) + names_of(b));
}

/// The names that two or more catalog records share.  Catalog construction
/// succeeds anyway (the later record wins in the index), but a non-empty
/// result points at a data-quality problem the caller should report.
pub fn duplicate_names(raw_data: &Intrinsics) -> (r: NameSet)
    ensures
        r.wf(),
        r@ == Set::new(|n: Seq<char>| dup_in(names_of(catalog_order(*raw_data)), n)),
{
    let ghost v1 = views_of_intrinsics(raw_data.avx_512@);
    let ghost v2 = views_of_intrinsics(raw_data.other@);
    let ghost v3 = views_of_intrinsics(raw_data.sse_all@);
    let ghost v4 = views_of_intrinsics(raw_data.avx_all@);
    let ghost v5 = views_of_intrinsics(raw_data.svml@);
    let ghost v6 = views_of_intrinsics(raw_data.mmx@);
    let ghost v7 = views_of_intrinsics(raw_data.amx@);
    let mut ns: Vec<String> = Vec::new();
    push_names(&mut ns, &raw_data.avx_512);
    proof {
        assert(ns@.map_values(|x: String| x@) =~= names_of(v1));
    }
    let ghost a1 = ns@.map_values(|x: String| x@);
    push_names(&mut ns, &raw_data.other);
    proof {
        assert(ns@.map_values(|x: String| x@) =~= a1 + names_of(v2));
    }
    let ghost a2 = ns@.map_values(|x: String| x@);
    push_names(&mut ns, &raw_data.sse_all);
    proof {
        assert(ns@.map_values(|x: String| x@) =~= a2 + names_of(v3));
    }
    let ghost a3 = ns@.map_values(|x: String| x@);
    push_names(&mut ns, &raw_data.avx_all);
    proof {
        assert(ns@.map_values(|x: String| x@) =~= a3 + names_of(v4));
    }
    let ghost a4 = ns@.map_values(|x: String| x@);
    push_names(&mut ns, &raw_data.svml);
    proof {
        assert(ns@.map_values(|x: String| x@) =~= a4 + names_of(v5));
    }
    let ghost a5 = ns@.map_values(|x: String| x@);
    push_names(&mut ns, &raw_data.mmx);
    proof {
        assert(ns@.map_values(|x: String| x@) =~= a5 + names_of(v6));
    }
    let ghost a6 = ns@.map_values(|x: String| x@);
    push_names(&mut ns, &raw_data.amx);
    proof {
        assert(ns@.map_values(|x: String| x@) =~= a6 + names_of(v7));
    }
    let ghost allnames = names_of(catalog_order(*raw_data));
    proof {
        lemma_names_of_concat(v1, v2);
        lemma_names_of_concat(v1 + v2, v3);
        lemma_names_of_concat(v1 + v2 + v3, v4);
        lemma_names_of_concat(v1 + v2 + v3 + v4, v5);
        lemma_names_of_concat(v1 + v2 + v3 + v4 + v5, v6);
        lemma_names_of_concat(v1 + v2 + v3 + v4 + v5 + v6, v7);
        assert(ns@.map_values(|x: String| x@) =~= allnames);
    }
    let total = ns.len();
    let mut r = NameSet::new();
    let mut k: usize = 0;
    proof {
        assert forall|n: Seq<char>| !dup_upto(allnames, 0).contains(n) by {
            if dup_upto(allnames, 0).contains(n) {
                let (a, b) = choose|a: int, b: int|
                    0 <= a < b < 0 && b < allnames.len() && (#[trigger] allnames[a]) == n && (
                    #[trigger] allnames[b]) == n;
            }
        }
        assert(r@ =~= dup_upto(allnames, 0));
    }
    while k < total
        invariant
            r.wf(),
            total == ns@.len(),
            k <= total,
            ns@.map_values(|x: String| x@) == allnames,
            r@ == dup_upto(allnames, k as int),
        decreases total - k,
    {
        let ghost before = r@;
        let hit = name_in_prefix(&ns, k);
        if hit {
            r.insert(ns[k].clone());
        }
        proof {
            assert(allnames[k as int] == ns@[k as int]@);
            assert forall|x: Seq<char>| r@.contains(x) implies dup_upto(allnames, k + 1).contains(
                x,
            ) by {
                if hit && x == ns@[k as int]@ {
                    let l = choose|l: int| 0 <= l < k && (#[trigger] ns@[l])@ == ns@[k as int]@;
                    assert(allnames[l] == x);
                    assert(allnames[k as int] == x);
                } else {
                    assert(before.contains(x));
                    let (a, b) = choose|a: int, b: int|
                        0 <= a < b < k && b < allnames.len() && (#[trigger] allnames[a]) == x && (
                        #[trigger] allnames[b]) == x;
                }
            }
            assert forall|x: Seq<char>| dup_upto(allnames, k + 1).contains(x) implies r@.contains(
                x,
            ) by {
                let (a, b) = choose|a: int, b: int|
                    0 <= a < b < k + 1 && b < allnames.len() && (#[trigger] allnames[a]) == x && (
                    #[trigger] allnames[b]) == x;
                if b < k {
                    assert(before.contains(x));
                } else {
                    assert(allnames[a] == ns@[a]@);
                    assert(ns@[a]@ == ns@[k as int]@);
                    assert(x == ns@[k as int]@);
                }
            }
            assert(r@ =~= dup_upto(allnames, k + 1));
        }
        k = k + 1;
    }
    proof {
        assert forall|x: Seq<char>|
            dup_upto(allnames, total as int).contains(x) == Set::new(
                |n: Seq<char>| dup_in(allnames, n),
            ).contains(x) by {
            if dup_upto(allnames, total as int).contains(x) {
                let (a, b) = choose|a: int, b: int|
                    0 <= a < b < total && b < allnames.len() && (#[trigger] allnames[a]) == x && (
                    #[trigger] allnames[b]) == x;
                assert(dup_in(allnames, x));
            }
            if dup_in(allnames, x) {
                let (a, b) = choose|a: int, b: int|
                    0 <= a < b < allnames.len() && (#[trigger] allnames[a]) == x && (
                    #[trigger] allnames[b]) == x;
                assert(dup_upto(allnames, total as int).contains(x));
            }
        }
        assert(r@ =~= Set::new(|n: Seq<char>| dup_in(allnames, n)));
    }
    r
}

/// Builds the name index of the whole catalog.  Every record of every
/// category is inserted, keyed by `signature.name`, in the canonical order
/// given by `catalog_order`; if two records share a name, the later one wins.
pub fn build_intrinsic_name_hashmap(raw_data: &Intrinsics) -> (r: NameIndex)
    ensures
        r.wf(),
        r@ == index_map_of(catalog_order(*raw_data)),
{
    let mut idx = NameIndex::new();
    put_all(&mut idx, &raw_data.avx_512);
    put_all(&mut idx, &raw_data.other);
    put_all(&mut idx, &raw_data.sse_all);
    put_all(&mut idx, &raw_data.avx_all);
    put_all(&mut idx, &raw_data.svml);
    put_all(&mut idx, &raw_data.mmx);
    put_all(&mut idx, &raw_data.amx);
    proof {
        let v1 = views_of_intrinsics(raw_data.avx_512@);
        let v2 = views_of_intrinsics(raw_data.other@);
        let v3 = views_of_intrinsics(raw_data.sse_all@);
        let v4 = views_of_intrinsics(raw_data.avx_all@);
        let v5 = views_of_intrinsics(raw_data.svml@);
        let v6 = views_of_intrinsics(raw_data.mmx@);
        let v7 = views_of_intrinsics(raw_data.amx@);
        let m0 = Map::<Seq<char>, IntrinsicView>::empty();
        lemma_insert_seq_concat(m0, v1, v2);
        lemma_insert_seq_concat(m0, v1 + v2, v3);
        lemma_insert_seq_concat(m0, v1 + v2 + v3, v4);
        lemma_insert_seq_concat(m0, v1 + v2 + v3 + v4, v5);
        lemma_insert_seq_concat(m0, v1 + v2 + v3 + v4 + v5, v6);
        lemma_insert_seq_concat(m0, v1 + v2 + v3 + v4 + v5 + v6, v7);
    }
    idx
}

} // verus!
