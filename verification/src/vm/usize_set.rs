//! A set of numbers.
use std::collections::BTreeSet;
use vstd::laws_cmp::obeys_cmp;
use vstd::prelude::*;
use vstd::std_specs::btree::spec_btree_keys_iter;
use vstd::std_specs::cmp::OrdSpec;
use vstd::std_specs::iter::IteratorSpec;

verus! {

/// A set of numbers.
pub struct UsizeSet {
    pub numbers: BTreeSet<usize>,
}

impl View for UsizeSet {
    type V = Set<usize>;

    open spec fn view(&self) -> Set<usize> {
        self.numbers@
    }
}

/// Whether numbers are listed in ascending order, each of them once.
pub open spec fn ascending(s: Seq<usize>) -> bool {
    forall|i: int, j: int| 0 <= i < j < s.len() ==> s[i] < s[j]
}

impl UsizeSet {
    /// The empty set.
    pub fn new() -> (r: UsizeSet)
        ensures
            r@ == Set::<usize>::empty(),
    {
        UsizeSet { numbers: BTreeSet::new() }
    }

    /// Adds a number. Tells whether it was not there.
    pub fn insert(&mut self, number: usize) -> (r: bool)
        ensures
            final(self)@ == old(self)@.insert(number),
            r == !old(self)@.contains(number),
    {
        broadcast use vstd::std_specs::btree::group_btree_axioms;
        broadcast use vstd::laws_cmp::group_laws_cmp;

        self.numbers.insert(number)
    }

    /// Removes a number. Tells whether it was there.
    pub fn remove(&mut self, number: usize) -> (r: bool)
        ensures
            final(self)@ == old(self)@.remove(number),
            r == old(self)@.contains(number),
    {
        broadcast use vstd::std_specs::btree::group_btree_axioms;
        broadcast use vstd::laws_cmp::group_laws_cmp;

        self.numbers.remove(&number)
    }

    /// Whether a number is in the set.
    pub fn contains(&self, number: usize) -> (r: bool)
        ensures
            r == self@.contains(number),
    {
        broadcast use vstd::std_specs::btree::group_btree_axioms;
        broadcast use vstd::laws_cmp::group_laws_cmp;

        self.numbers.contains(&number)
    }

    /// Removes the numbers below `from`, and those from `to` on.
    pub fn keep(&mut self, from: usize, to: usize)
        ensures
            final(self)@ == Set::new(|n: usize| old(self)@.contains(n) && from <= n < to),
    {
        let all = self.to_vec();
        let ghost before = self@;
        let mut kept = UsizeSet::new();
        let mut i: usize = 0;
        while i < all.len()
            invariant
                i <= all.len(),
                all@.to_set() == before,
                forall|n: usize| #[trigger]
                    kept@.contains(n) <==> from <= n < to && all@.take(i as int).contains(n),
            decreases all.len() - i,
        {
            let n = all[i];
            let ghost next = all@.take(i + 1);
            assert(next =~= all@.take(i as int).push(n));
            assert forall|k: usize| next.contains(k) <==> all@.take(i as int).contains(k) || k == n by {
                if k == n {
                    assert(next[i as int] == k);
                }
                if all@.take(i as int).contains(k) {
                    let j = choose|j: int| 0 <= j < i && all@.take(i as int)[j] == k;
                    assert(next[j] == k);
                }
            }
            if from <= n && n < to {
                kept.insert(n);
            }
            i += 1;
        }
        assert(all@.take(i as int) =~= all@);
        *self = kept;
        assert forall|n: usize| #[trigger] self@.contains(n) <==> before.contains(n) && from <= n
            < to by {
            assert(all@.to_set().contains(n) == all@.contains(n));
        }
        assert(self@ =~= Set::new(|n: usize| before.contains(n) && from <= n < to));
    }

    /// A copy of the set.
    pub fn copy(&self) -> (r: UsizeSet)
        ensures
            r@ == self@,
    {
        UsizeSet { numbers: self.numbers.clone() }
    }

    /// The numbers of the set, in ascending order.
    pub fn to_vec(&self) -> (r: Vec<usize>)
        ensures
            r@.to_set() == self@,
            ascending(r@),
    {
        broadcast use vstd::std_specs::btree::group_btree_axioms;
        broadcast use vstd::laws_cmp::group_laws_cmp;

        let mut r: Vec<usize> = Vec::new();
        for number in it: self.numbers.iter()
            invariant
                it.seq() == spec_btree_keys_iter(&self.numbers).remaining(),
                r@ =~= it.seq().unref().take(it.index()),
        {
            r.push(*number);
        }
        proof {
            let listed = spec_btree_keys_iter(&self.numbers).remaining();
            assert(r@ =~= listed.unref());
            assert(obeys_cmp::<&usize>());
            assert forall|i: int, j: int| 0 <= i < j < r@.len() implies r@[i] < r@[j] by {
                assert(OrdSpec::cmp_spec(&listed[i], &listed[j]) is Less);
            }
        }
        r
    }
}

} // verus!
