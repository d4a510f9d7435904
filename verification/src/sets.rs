//! Counting values and comparing the values of two `EnhVec`s as sets.
use crate::enhvec::EnhVec;
use crate::order::lawful_eq;
use vstd::prelude::*;
use vstd::std_specs::cmp::PartialEqSpec;

verus! {

/// How many elements of `s` are equal to `v`.
pub open spec fn count_eq<T: PartialEq>(s: Seq<T>, v: T) -> nat
    decreases s.len(),
{
    if s.len() == 0 {
        0
    } else {
        count_eq(s.drop_last(), v) + if s.last().eq_spec(&v) {
            1nat
        } else {
            0nat
        }
    }
}

/// Some element of `s` is equal to `v`.
pub open spec fn has_eq<T: PartialEq>(s: Seq<T>, v: T) -> bool {
    exists|i: int| 0 <= i < s.len() && (#[trigger] s[i]).eq_spec(&v)
}

/// Every element of `o` is equal to some element of `s`.
pub open spec fn has_all<T: PartialEq>(s: Seq<T>, o: Seq<T>) -> bool {
    forall|j: int| 0 <= j < o.len() ==> has_eq(s, #[trigger] o[j])
}

/// Some element of `o` is equal to some element of `s`.
pub open spec fn has_any<T: PartialEq>(s: Seq<T>, o: Seq<T>) -> bool {
    exists|j: int| 0 <= j < o.len() && has_eq(s, #[trigger] o[j])
}

/// Each value of `s` is in `o`: what `is_subset` answers.
pub open spec fn subset_of<T: PartialEq>(s: Seq<T>, o: Seq<T>) -> bool {
    has_all(o, s)
}

/// Each value of `o` is in `s`: what `is_superset` answers.
pub open spec fn superset_of<T: PartialEq>(s: Seq<T>, o: Seq<T>) -> bool {
    has_all(s, o)
}

/// `count_eq` of a prefix grows by one exactly at the elements equal to `v`.
proof fn lemma_count_step<T: PartialEq>(s: Seq<T>, v: T, i: int)
    requires
        0 <= i < s.len(),
    ensures
        count_eq(s.take(i + 1), v) == count_eq(s.take(i), v) + if s[i].eq_spec(&v) {
            1nat
        } else {
            0nat
        },
{
    assert(s.take(i + 1).drop_last() =~= s.take(i));
}

impl<T: PartialEq> EnhVec<T> {
    /// Count the occurrences of a value.
    pub fn count(&self, value: &T) -> (r: usize)
        requires
            self.wf(),
            lawful_eq::<T>(),
        ensures
            r == count_eq(self@, *value),
    {
        let n = self.len();
        let refs = self.as_ref_vec();
        let mut c: usize = 0;
        let mut i: usize = 0;
        while i < n
            invariant
                lawful_eq::<T>(),
                n == self@.len(),
                refs@.len() == n,
                forall|k: int| 0 <= k < n ==> *refs@[k] == #[trigger] self@[k],
                i <= n,
                c <= i,
                c == count_eq(self@.take(i as int), *value),
            decreases n - i,
        {
            proof {
                lemma_count_step(self@, *value, i as int);
            }
            if *refs[i] == *value {
                c = c + 1;
            }
            i = i + 1;
        }
        assert(self@.take(n as int) =~= self@);
        c
    }

    /// Check if the [EnhVec] contains a value.
    pub fn contains(&self, value: &T) -> (r: bool)
        requires
            self.wf(),
            lawful_eq::<T>(),
        ensures
            r == has_eq(self@, *value),
    {
        let n = self.len();
        let refs = self.as_ref_vec();
        let mut i: usize = 0;
        while i < n
            invariant
                lawful_eq::<T>(),
                n == self@.len(),
                refs@.len() == n,
                forall|k: int| 0 <= k < n ==> *refs@[k] == #[trigger] self@[k],
                i <= n,
                forall|k: int| 0 <= k < i ==> !(#[trigger] self@[k]).eq_spec(value),
            decreases n - i,
        {
            if *refs[i] == *value {
                assert(self@[i as int].eq_spec(value));
                return true;
            }
            i = i + 1;
        }
        false
    }

    /// Check if the [EnhVec] contains all values in another [EnhVec].
    pub fn contains_all(&self, other: &Self) -> (r: bool)
        requires
            self.wf(),
            other.wf(),
            lawful_eq::<T>(),
        ensures
            r == has_all(self@, other@),
    {
        let n = other.len();
        let refs = other.as_ref_vec();
        let mut i: usize = 0;
        while i < n
            invariant
                self.wf(),
                lawful_eq::<T>(),
                n == other@.len(),
                refs@.len() == n,
                forall|k: int| 0 <= k < n ==> *refs@[k] == #[trigger] other@[k],
                i <= n,
                forall|k: int| 0 <= k < i ==> has_eq(self@, #[trigger] other@[k]),
            decreases n - i,
        {
            if !self.contains(refs[i]) {
                assert(!has_eq(self@, other@[i as int]));
                return false;
            }
            i = i + 1;
        }
        true
    }

    /// Check if the [EnhVec] contains any values in another [EnhVec].
    pub fn contains_any(&self, other: &Self) -> (r: bool)
        requires
            self.wf(),
            other.wf(),
            lawful_eq::<T>(),
        ensures
            r == has_any(self@, other@),
    {
        let n = other.len();
        let refs = other.as_ref_vec();
        let mut i: usize = 0;
        while i < n
            invariant
                self.wf(),
                lawful_eq::<T>(),
                n == other@.len(),
                refs@.len() == n,
                forall|k: int| 0 <= k < n ==> *refs@[k] == #[trigger] other@[k],
                i <= n,
                forall|k: int| 0 <= k < i ==> !has_eq(self@, #[trigger] other@[k]),
            decreases n - i,
        {
            if self.contains(refs[i]) {
                assert(has_eq(self@, other@[i as int]));
                return true;
            }
            i = i + 1;
        }
        false
    }

    /// Check if the [EnhVec] contains only values in another [EnhVec].
    pub fn contains_only(&self, other: &Self) -> (r: bool)
        requires
            self.wf(),
            other.wf(),
            lawful_eq::<T>(),
        ensures
            r == subset_of(self@, other@),
    {
        other.contains_all(self)
    }

    /// Check if the [EnhVec] is a subset of another [EnhVec]: each of its values is in `other`.
    pub fn is_subset(&self, other: &Self) -> (r: bool)
        requires
            self.wf(),
            other.wf(),
            lawful_eq::<T>(),
        ensures
            r == subset_of(self@, other@),
    {
        other.contains_all(self)
    }

    /// Check if the [EnhVec] is a superset of another [EnhVec]: each value of `other` is in it.
    pub fn is_superset(&self, other: &Self) -> (r: bool)
        requires
            self.wf(),
            other.wf(),
            lawful_eq::<T>(),
        ensures
            r == superset_of(self@, other@),
    {
        self.contains_all(other)
    }

    /// Check if the [EnhVec] is disjoint with another [EnhVec].
    pub fn is_disjoint(&self, other: &Self) -> (r: bool)
        requires
            self.wf(),
            other.wf(),
            lawful_eq::<T>(),
        ensures
            r == !has_any(self@, other@),
    {
        !self.contains_any(other)
    }

    /// Check if the [EnhVec] is equal to another [EnhVec], whatever the
    /// order: both are as long, and each value occurs as often in both.
    pub fn is_equal(&self, other: &Self) -> (r: bool)
        requires
            self.wf(),
            other.wf(),
            lawful_eq::<T>(),
        ensures
            r == (self@.len() == other@.len() && forall|i: int|
                0 <= i < self@.len() ==> count_eq(self@, #[trigger] self@[i]) == count_eq(other@, self@[i])),
    {
        let n = self.len();
        if n != other.len() {
            return false;
        }
        let refs = self.as_ref_vec();
        let mut i: usize = 0;
        while i < n
            invariant
                self.wf(),
                other.wf(),
                lawful_eq::<T>(),
                n == self@.len(),
                n == other@.len(),
                refs@.len() == n,
                forall|k: int| 0 <= k < n ==> *refs@[k] == #[trigger] self@[k],
                i <= n,
                forall|k: int| 0 <= k < i ==> count_eq(self@, #[trigger] self@[k]) == count_eq(other@, self@[k]),
            decreases n - i,
        {
            if self.count(refs[i]) != other.count(refs[i]) {
                assert(count_eq(self@, self@[i as int]) != count_eq(other@, self@[i as int]));
                return false;
            }
            i = i + 1;
        }
        true
    }

    /// Check if the [EnhVec] is a proper subset of another [EnhVec].
    pub fn is_proper_subset(&self, other: &Self) -> (r: bool)
        requires
            self.wf(),
            other.wf(),
            lawful_eq::<T>(),
        ensures
            r == (subset_of(self@, other@) && self@.len() < other@.len()),
    {
        self.is_subset(other) && self.len() < other.len()
    }

    /// Check if the [EnhVec] is a proper superset of another [EnhVec].
    pub fn is_proper_superset(&self, other: &Self) -> (r: bool)
        requires
            self.wf(),
            other.wf(),
            lawful_eq::<T>(),
        ensures
            r == (superset_of(self@, other@) && self@.len() > other@.len()),
    {
        self.is_superset(other) && self.len() > other.len()
    }

    /// Check if the [EnhVec] is a proper subset or superset of another [EnhVec].
    pub fn is_proper(&self, other: &Self) -> (r: bool)
        requires
            self.wf(),
            other.wf(),
            lawful_eq::<T>(),
        ensures
            r == ((subset_of(self@, other@) && self@.len() < other@.len()) || (superset_of(self@, other@)
                && self@.len() > other@.len())),
    {
        self.is_proper_subset(other) || self.is_proper_superset(other)
    }

    /// Check if the [EnhVec] is a proper subset and superset of another [EnhVec].
    pub fn is_proper_both(&self, other: &Self) -> (r: bool)
        requires
            self.wf(),
            other.wf(),
            lawful_eq::<T>(),
        ensures
            r == ((subset_of(self@, other@) && self@.len() < other@.len()) && (superset_of(self@, other@)
                && self@.len() > other@.len())),
    {
        self.is_proper_subset(other) && self.is_proper_superset(other)
    }

    /// Check if the [EnhVec] is a proper subset or superset of another [EnhVec].
    pub fn is_proper_either(&self, other: &Self) -> (r: bool)
        requires
            self.wf(),
            other.wf(),
            lawful_eq::<T>(),
        ensures
            r == ((subset_of(self@, other@) && self@.len() < other@.len()) || (superset_of(self@, other@)
                && self@.len() > other@.len())),
    {
        self.is_proper_subset(other) || self.is_proper_superset(other)
    }
}

} // verus!
