//! A deduplicated set of strings, used both for match results (sets of
//! intrinsic names) and for aggregated CPU feature flag sets.  Its model is a
//! set of character sequences; the stored vector carries each member exactly
//! once.

use vstd::prelude::*;

verus! {

/// A set of names, stored as a vector of pairwise distinct strings.
pub struct NameSet {
    pub names: Vec<String>,
}

impl View for NameSet {
    type V = Set<Seq<char>>;

    open spec fn view(&self) -> Set<Seq<char>> {
        Set::new(
            |n: Seq<char>|
                exists|k: int| 0 <= k < self.names@.len() && (#[trigger] self.names@[k])@ == n,
        )
    }
}

/// The members among the first `i` strings of `v`.
pub open spec fn names_prefix_set(v: Seq<String>, i: int) -> Set<Seq<char>> {
    Set::new(|n: Seq<char>| exists|k: int| 0 <= k < i && k < v.len() && (#[trigger] v[k])@ == n)
}

impl NameSet {
    /// The stored strings are pairwise distinct.
    pub open spec fn wf(&self) -> bool {
        forall|i: int, j: int|
            0 <= i < j < self.names@.len() ==> (#[trigger] self.names@[i])@ != (
            #[trigger] self.names@[j])@
    }

    /// An empty set.
    pub fn new() -> (r: NameSet)
        ensures
            r.wf(),
            r@ == Set::<Seq<char>>::empty(),
    {
        let r = NameSet { names: Vec::new() };
        proof {
            assert(r@ =~= Set::<Seq<char>>::empty());
        }
        r
    }

    /// Membership test.
    pub fn contains(&self, name: &String) -> (r: bool)
        ensures
            r == self@.contains(name@),
    {
        let n = self.names.len();
        let mut i: usize = 0;
        while i < n
            invariant
                n == self.names@.len(),
                i <= n,
                forall|k: int| 0 <= k < i ==> (#[trigger] self.names@[k])@ != name@,
            decreases n - i,
        {
            if self.names[i] == *name {
                proof {
                    assert((self.names@[i as int])@ == name@);
                }
                return true;
            }
            i = i + 1;
        }
        false
    }

    /// Adds `name`; a member that is already present is not stored twice.
    pub fn insert(&mut self, name: String)
        requires
            old(self).wf(),
        ensures
            final(self).wf(),
            final(self)@ == old(self)@.insert(name@),
    {
        if self.contains(&name) {
            proof {
                assert(self@ =~= old(self)@.insert(name@));
            }
        } else {
            let ghost olds = self.names@;
            self.names.push(name);
            proof {
                assert forall|i: int, j: int| 0 <= i < j < self.names@.len() implies (
                #[trigger] self.names@[i])@ != (#[trigger] self.names@[j])@ by {
                    if j < olds.len() {
                        assert(olds[i]@ != olds[j]@);
                    } else {
                        assert(olds[i]@ != name@);
                    }
                }
                assert forall|x: Seq<char>| self@.contains(x) implies old(self)@.insert(
                    name@,
                ).contains(x) by {
                    let k = choose|k: int|
                        0 <= k < self.names@.len() && (#[trigger] self.names@[k])@ == x;
                    if k < olds.len() {
                        assert(olds[k]@ == x);
                    }
                }
                assert forall|x: Seq<char>| old(self)@.insert(name@).contains(x) implies
                    self@.contains(x) by {
                    if x == name@ {
                        assert((self.names@[olds.len() as int])@ == x);
                    } else {
                        let k = choose|k: int| 0 <= k < olds.len() && (#[trigger] olds[k])@ == x;
                        assert((self.names@[k])@ == x);
                    }
                }
                assert(self@ =~= old(self)@.insert(name@));
            }
        }
    }

    /// Adds every string of `items`.
    pub fn insert_all(&mut self, items: &Vec<String>)
        requires
            old(self).wf(),
        ensures
            final(self).wf(),
            final(self)@ == old(self)@.union(
                names_prefix_set(items@, items@.len() as int),
            ),
    {
        let n = items.len();
        let mut i: usize = 0;
        proof {
            assert(self@ =~= old(self)@.union(names_prefix_set(items@, 0)));
        }
        while i < n
            invariant
                self.wf(),
                n == items@.len(),
                i <= n,
                self@ == old(self)@.union(names_prefix_set(items@, i as int)),
            decreases n - i,
        {
            let ghost before = self@;
            self.insert(items[i].clone());
            proof {
                assert forall|x: Seq<char>|
                    before.insert((items@[i as int])@).contains(x) implies old(self)@.union(
                    names_prefix_set(items@, i + 1),
                ).contains(x) by {
                    if x == (items@[i as int])@ {
                        assert(names_prefix_set(items@, i + 1).contains(x));
                    } else if !old(self)@.contains(x) {
                        let k = choose|k: int|
                            0 <= k < i && k < items@.len() && (#[trigger] items@[k])@ == x;
                        assert(names_prefix_set(items@, i + 1).contains(x));
                    }
                }
                assert forall|x: Seq<char>|
                    old(self)@.union(names_prefix_set(items@, i + 1)).contains(x) implies
                    before.insert((items@[i as int])@).contains(x) by {
                    if !old(self)@.contains(x) {
                        let k = choose|k: int|
                            0 <= k < i + 1 && k < items@.len() && (#[trigger] items@[k])@ == x;
                        if k < i {
                            assert(names_prefix_set(items@, i as int).contains(x));
                        }
                    }
                }
                assert(self@ =~= old(self)@.union(names_prefix_set(items@, i + 1)));
            }
            i = i + 1;
        }
    }

    /// Adds every member of `other`.
    pub fn union_with(&mut self, other: &NameSet)
        requires
            old(self).wf(),
        ensures
            final(self).wf(),
            final(self)@ == old(self)@.union(other@),
    {
        self.insert_all(&other.names);
        proof {
            let n = other.names@.len() as int;
            assert forall|x: Seq<char>| names_prefix_set(other.names@, n).contains(x) implies
                other@.contains(x) by {
                let k = choose|k: int|
                    0 <= k < n && k < other.names@.len() && (#[trigger] other.names@[k])@ == x;
                assert((other.names@[k])@ == x);
            }
            assert(names_prefix_set(other.names@, n) =~= other@);
            assert(self@ =~= old(self)@.union(other@));
        }
    }

    /// The number of stored names.
    pub fn len(&self) -> (r: usize)
        ensures
            r == self.names@.len(),
    {
        self.names.len()
    }
}

} // verus!
