//! Sets of values kept in a vector without repetitions: the inputs or
//! outputs that peers have learned. Two sets join to their union.
use vstd::prelude::*;

use crate::values::{views, IdempotentValue};
use crate::{Join, JoinError};

verus! {

/// A finite set of values, each stored once.
#[derive(Debug)]
pub struct ValueSet<T: View> {
    items: Vec<T>,
}

impl<T: View> View for ValueSet<T> {
    type V = Set<T::V>;

    closed spec fn view(&self) -> Set<T::V> {
        views(self.items@).to_set()
    }
}

impl<T: View> ValueSet<T> {
    #[verifier::type_invariant]
    closed spec fn no_repeats(self) -> bool {
        views(self.items@).no_duplicates()
    }
}

impl<T: IdempotentValue> ValueSet<T> {
    /// The empty set.
    pub fn new() -> (r: Self)
        ensures
            r@ == Set::<T::V>::empty(),
    {
        let r = ValueSet { items: Vec::new() };
        assert(views(r.items@).to_set() =~= Set::<T::V>::empty());
        r
    }

    /// The number of values in the set.
    pub fn len(&self) -> (r: usize)
        ensures
            r == self@.len(),
    {
        proof {
            use_type_invariant(self);
            views(self.items@).unique_seq_to_set();
        }
        self.items.len()
    }

    /// Whether the set holds a value equal to `x`.
    pub fn contains(&self, x: &T) -> (r: bool)
        ensures
            r == self@.contains(x@),
    {
        let n = self.items.len();
        let mut i: usize = 0;
        while i < n
            invariant
                n == self.items@.len(),
                i <= n,
                forall|j: int| 0 <= j < i ==> self.items@[j]@ != x@,
            decreases n - i,
        {
            if self.items[i].same_value(x) {
                assert(views(self.items@)[i as int] == x@);
                return true;
            }
            i = i + 1;
        }
        assert(!views(self.items@).contains(x@));
        false
    }

    /// Adds a value; says whether it was new.
    pub fn insert(&mut self, x: T) -> (r: bool)
        ensures
            final(self)@ == old(self)@.insert(x@),
            r == !old(self)@.contains(x@),
    {
        proof {
            use_type_invariant(&*self);
        }
        if self.contains(&x) {
            assert(self@.insert(x@) =~= self@);
            return false;
        }
        let mut items: Vec<T> = Vec::new();
        std::mem::swap(&mut items, &mut self.items);
        let ghost before = items@;
        items.push(x);
        proof {
            assert(views(items@) =~= views(before).push(x@));
            views(before).lemma_push_to_set_commute(x@);
            assert(views(items@).no_duplicates()) by {
                assert forall|a: int, b: int|
                    0 <= a < views(items@).len() && 0 <= b < views(items@).len() && a != b
                    implies views(items@)[a] != views(items@)[b] by {
                    if a == before.len() as int {
                        assert(views(before).contains(views(before)[b]));
                    } else if b == before.len() as int {
                        assert(views(before).contains(views(before)[a]));
                    }
                }
            }
        }
        self.items = items;
        true
    }

    /// The values of the set, each once.
    pub fn items(&self) -> (r: &Vec<T>)
        ensures
            views(r@).no_duplicates(),
            views(r@).to_set() == self@,
    {
        proof {
            use_type_invariant(self);
        }
        &self.items
    }

    /// The values of the set, each once, in a vector.
    pub fn into_vec(self) -> (r: Vec<T>)
        ensures
            views(r@).no_duplicates(),
            views(r@).to_set() == self@,
    {
        proof {
            use_type_invariant(&self);
        }
        let ValueSet { items } = self;
        items
    }

    /// A copy of the set.
    pub fn copy(&self) -> (r: Self)
        ensures
            r@ == self@,
    {
        proof {
            use_type_invariant(self);
        }
        let n = self.items.len();
        let mut items: Vec<T> = Vec::new();
        let mut i: usize = 0;
        while i < n
            invariant
                n == self.items@.len(),
                i <= n,
                views(items@) =~= views(self.items@).take(i as int),
            decreases n - i,
        {
            let x = self.items[i].copy_value();
            let ghost before = items@;
            items.push(x);
            proof {
                assert(views(items@) =~= views(before).push(x@));
            }
            i = i + 1;
        }
        assert(views(self.items@).take(n as int) =~= views(self.items@));
        ValueSet { items }
    }
}

impl<T: IdempotentValue> ValueSet<T> {
    /// Whether every value of `other` is in this set.
    fn includes(&self, other: &Self) -> (r: bool)
        ensures
            r == other@.subset_of(self@),
    {
        let others = other.items();
        let n = others.len();
        let mut j: usize = 0;
        while j < n
            invariant
                n == others@.len(),
                views(others@).to_set() == other@,
                j <= n,
                forall|k: int| 0 <= k < j ==> self@.contains(#[trigger] others@[k]@),
            decreases n - j,
        {
            if !self.contains(&others[j]) {
                assert(views(others@)[j as int] == others@[j as int]@);
                return false;
            }
            j = j + 1;
        }
        assert forall|x: T::V| other@.contains(x) implies self@.contains(x) by {
            let k = choose|k: int| 0 <= k < views(others@).len() && views(others@)[k] == x;
            assert(others@[k]@ == x);
        }
        true
    }
}

/// Two sets are equal when they hold the same values, whatever the order in
/// which they were stored.
impl<T: IdempotentValue> PartialEq for ValueSet<T> {
    fn eq(&self, other: &Self) -> (r: bool) {
        let r = self.includes(other) && other.includes(self);
        proof {
            if r {
                assert(self@ =~= other@);
            }
        }
        r
    }
}

impl<T: IdempotentValue> vstd::std_specs::cmp::PartialEqSpecImpl for ValueSet<T> {
    open spec fn obeys_eq_spec() -> bool {
        true
    }

    open spec fn eq_spec(&self, other: &Self) -> bool {
        self@ == other@
    }
}

impl<T: IdempotentValue> Eq for ValueSet<T> {}

impl<T: IdempotentValue> Clone for ValueSet<T> {
    fn clone(&self) -> (r: Self)
        ensures
            r@ == self@,
    {
        self.copy()
    }
}

impl<T: IdempotentValue> Join for ValueSet<T> {
    /// The union of the two sets; it never fails.
    fn join(&self, other: &Self) -> (r: Result<Self, JoinError>)
        ensures
            r matches Ok(s) && s@ == self@.union(other@),
    {
        let mut result = self.copy();
        let others = other.items();
        let n = others.len();
        let mut j: usize = 0;
        proof {
            assert(views(others@).take(0).to_set() =~= Set::<T::V>::empty());
            assert(self@.union(Set::empty()) =~= self@);
        }
        while j < n
            invariant
                n == others@.len(),
                views(others@).to_set() == other@,
                j <= n,
                result@ == self@.union(views(others@).take(j as int).to_set()),
            decreases n - j,
        {
            let x = others[j].copy_value();
            result.insert(x);
            proof {
                assert(views(others@).take(j + 1) =~= views(others@).take(j as int).push(x@));
                views(others@).take(j as int).lemma_push_to_set_commute(x@);
                assert(result@ =~= self@.union(views(others@).take(j + 1).to_set()));
            }
            j = j + 1;
        }
        assert(views(others@).take(n as int) =~= views(others@));
        Ok(result)
    }
}

} // verus!
