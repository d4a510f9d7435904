//! Statistics of the elements of an `EnhVec`: sum, product, range, median,
//! mode and the distinct elements.
use crate::enhvec::EnhVec;
use crate::integer::{half_toward_zero, Integer};
use crate::order::{ascending, lawful_eq, lawful_order, lemma_le_trans, lemma_order_basics, leq};
use crate::sets::{count_eq, has_eq};
use crate::sorting::{
    in_order,
    merge_sort,
    lemma_in_order_ordered,
    lemma_ordered_unique,
    ordered,
    precedes,
};
use crate::state::Sorting;
use vstd::prelude::*;
use vstd::std_specs::cmp::PartialEqSpec;

verus! {

/// The integer values of the elements of `s`.
pub open spec fn values<T: Integer>(s: Seq<T>) -> Seq<int> {
    s.map_values(|x: T| x.to_int())
}

/// The sum of `s`.
pub open spec fn sum_of(s: Seq<int>) -> int
    decreases s.len(),
{
    if s.len() == 0 {
        0
    } else {
        sum_of(s.drop_last()) + s.last()
    }
}

/// The product of `s`; one for an empty `s`.
pub open spec fn product_of(s: Seq<int>) -> int
    decreases s.len(),
{
    if s.len() == 0 {
        1
    } else {
        product_of(s.drop_last()) * s.last()
    }
}

/// The largest element of a non-empty `s`.
pub open spec fn max_of(s: Seq<int>) -> int
    decreases s.len(),
{
    if s.len() <= 1 {
        s[0]
    } else if s.last() > max_of(s.drop_last()) {
        s.last()
    } else {
        max_of(s.drop_last())
    }
}

/// The smallest element of a non-empty `s`.
pub open spec fn min_of(s: Seq<int>) -> int
    decreases s.len(),
{
    if s.len() <= 1 {
        s[0]
    } else if s.last() < min_of(s.drop_last()) {
        s.last()
    } else {
        min_of(s.drop_last())
    }
}

/// Every sum of a prefix of `s` lies between `lo` and `hi`.
pub open spec fn sums_fit(s: Seq<int>, lo: int, hi: int) -> bool {
    forall|k: int| 0 <= k <= s.len() ==> lo <= #[trigger] sum_of(s.take(k)) <= hi
}

/// Every product of a prefix of `s` fits in an `i128`.
pub open spec fn products_fit(s: Seq<int>) -> bool {
    forall|k: int| 0 <= k <= s.len() ==> i128::MIN <= #[trigger] product_of(s.take(k)) <= i128::MAX
}

/// The middle value of an ascending `s`: the middle element for an odd
/// length, half the sum of the two middle ones (rounded towards zero) for
/// an even length.
pub open spec fn median_of<T: Integer>(s: Seq<T>) -> int {
    let mid = s.len() / 2;
    if s.len() % 2 == 1 {
        s[mid as int].to_int()
    } else {
        half_toward_zero(s[mid - 1].to_int() + s[mid as int].to_int())
    }
}

/// The elements of `s` in ascending order: the ascending sequence with the
/// same elements, which is unique for integers.
pub open spec fn ascending_arrangement<T: PartialOrd>(s: Seq<T>) -> Seq<T> {
    choose|t: Seq<T>| ascending(t) && t.to_multiset() == s.to_multiset()
}

/// An ascending sequence with the elements of `s` is `ascending_arrangement(s)`.
pub proof fn lemma_ascending_arrangement<T: Integer>(s: Seq<T>, t: Seq<T>)
    requires
        ascending(t),
        t.to_multiset() == s.to_multiset(),
    ensures
        ascending_arrangement(s) == t,
{
    T::lemma_integer();
    let c = ascending_arrangement(s);
    assert(ascending(c) && c.to_multiset() == s.to_multiset());
    lemma_in_order_ordered(t, Sorting::Ascending);
    lemma_in_order_ordered(c, Sorting::Ascending);
    lemma_ordered_unique(t, c, false);
}

/// `max_of` is an element of `s` and no element exceeds it.
pub proof fn lemma_max_of(s: Seq<int>)
    requires
        s.len() > 0,
    ensures
        exists|k: int| 0 <= k < s.len() && s[k] == max_of(s),
        forall|k: int| 0 <= k < s.len() ==> #[trigger] s[k] <= max_of(s),
    decreases s.len(),
{
    if s.len() == 1 {
        assert(s[0] == max_of(s));
    }
    if s.len() > 1 {
        let t = s.drop_last();
        lemma_max_of(t);
        let k0 = choose|k: int| 0 <= k < t.len() && t[k] == max_of(t);
        assert(s[k0] == t[k0]);
        if s.last() > max_of(t) {
            assert(s[s.len() - 1] == max_of(s));
        } else {
            assert(s[k0] == max_of(s));
        }
        assert forall|k: int| 0 <= k < s.len() implies #[trigger] s[k] <= max_of(s) by {
            if k < t.len() {
                assert(s[k] == t[k]);
            }
        }
    }
}

/// `min_of` is an element of `s` and no element is below it.
pub proof fn lemma_min_of(s: Seq<int>)
    requires
        s.len() > 0,
    ensures
        exists|k: int| 0 <= k < s.len() && s[k] == min_of(s),
        forall|k: int| 0 <= k < s.len() ==> min_of(s) <= #[trigger] s[k],
    decreases s.len(),
{
    if s.len() == 1 {
        assert(s[0] == min_of(s));
    }
    if s.len() > 1 {
        let t = s.drop_last();
        lemma_min_of(t);
        let k0 = choose|k: int| 0 <= k < t.len() && t[k] == min_of(t);
        assert(s[k0] == t[k0]);
        if s.last() < min_of(t) {
            assert(s[s.len() - 1] == min_of(s));
        } else {
            assert(s[k0] == min_of(s));
        }
        assert forall|k: int| 0 <= k < s.len() implies min_of(s) <= #[trigger] s[k] by {
            if k < t.len() {
                assert(s[k] == t[k]);
            }
        }
    }
}

impl<T: Integer> EnhVec<T> {
    /// Return the sum of all elements.
    pub fn sum(&self) -> (r: T)
        requires
            self.wf(),
            sums_fit(values(self@), T::lowest(), T::highest()),
        ensures
            r.to_int() == sum_of(values(self@)),
    {
        let n = self.len();
        let refs = self.as_ref_vec();
        let ghost s = values(self@);
        let mut acc = T::zero();
        let mut i: usize = 0;
        assert(s.take(0) =~= Seq::<int>::empty());
        while i < n
            invariant
                n == self@.len(),
                s == values(self@),
                refs@.len() == n,
                forall|k: int| 0 <= k < n ==> *refs@[k] == #[trigger] self@[k],
                sums_fit(s, T::lowest(), T::highest()),
                i <= n,
                acc.to_int() == sum_of(s.take(i as int)),
            decreases n - i,
        {
            let x = *refs[i];
            proof {
                assert(s.take(i + 1).drop_last() =~= s.take(i as int));
                assert(s[i as int] == x.to_int());
                assert(sum_of(s.take(i + 1)) == sum_of(s.take(i as int)) + x.to_int());
                assert(T::lowest() <= sum_of(s.take(i + 1)) <= T::highest());
            }
            acc = acc.plus(x);
            i = i + 1;
        }
        assert(s.take(n as int) =~= s);
        acc
    }

    /// Return the range (max - min) of the elements; `None` for an empty [EnhVec].
    pub fn range(&self) -> (r: Option<T>)
        requires
            self.wf(),
            self@.len() > 0 ==> T::lowest() <= max_of(values(self@)) - min_of(values(self@))
                <= T::highest(),
        ensures
            r is None <==> self@.len() == 0,
            r matches Some(x) ==> x.to_int() == max_of(values(self@)) - min_of(values(self@)),
    {
        let n = self.len();
        if n == 0 {
            return None;
        }
        let refs = self.as_ref_vec();
        let ghost s = values(self@);
        let mut lo = *refs[0];
        let mut hi = *refs[0];
        let mut i: usize = 1;
        assert(s.take(1) =~= seq![s[0]]);
        while i < n
            invariant
                n == self@.len(),
                s == values(self@),
                refs@.len() == n,
                forall|k: int| 0 <= k < n ==> *refs@[k] == #[trigger] self@[k],
                1 <= i <= n,
                lo.to_int() == min_of(s.take(i as int)),
                hi.to_int() == max_of(s.take(i as int)),
            decreases n - i,
        {
            proof {
                T::lemma_integer();
                lemma_order_basics::<T>();
                assert(s.take(i + 1).drop_last() =~= s.take(i as int));
                assert(s.take(i + 1).last() == s[i as int]);
            }
            let x = *refs[i];
            assert(s[i as int] == x.to_int());
            if x < lo {
                lo = x;
            }
            if hi < x {
                hi = x;
            }
            i = i + 1;
        }
        assert(s.take(n as int) =~= s);
        Some(hi.minus(lo))
    }

    /// Return the median (aka. the middle) value of the elements, taken from
    /// the ascending arrangement that `as_sorted_asc` gives.
    pub fn median(&self) -> (r: Option<T>)
        requires
            self.inv(),
            self@.len() > 0 && self@.len() % 2 == 0 ==> {
                let a = ascending_arrangement(self@);
                let mid = self@.len() / 2;
                T::lowest() <= a[mid - 1].to_int() + a[mid as int].to_int() <= T::highest()
            },
        ensures
            r is None <==> self@.len() == 0,
            r matches Some(x) ==> x.to_int() == median_of(ascending_arrangement(self@)),
    {
        if self.is_empty() {
            return None;
        }
        proof {
            T::lemma_integer();
        }
        let sorted = self.as_sorted_asc();
        proof {
            lemma_ascending_arrangement(self@, sorted@.unref());
            vstd::seq_lib::to_multiset_len(self@);
            vstd::seq_lib::to_multiset_len(sorted@.unref());
        }
        let len = sorted.len();
        assert(sorted@.unref().len() == len);
        assert(len == self@.len());
        let mid: usize = len / 2;
        if len % 2 == 0 {
            assert(len >= 2);
            let a = *sorted[mid - 1];
            let b = *sorted[mid];
            Some(a.plus(b).halve())
        } else {
            Some(*sorted[mid])
        }
    }

    /// The element at position `index` of the ascending arrangement that
    /// `as_sorted_asc` gives; `None` when there is no such position. The
    /// percentile of a fraction `p` is the element at rank `p * (len - 1)`,
    /// rounded.
    pub fn value_at_rank(&self, index: usize) -> (r: Option<T>)
        requires
            self.inv(),
        ensures
            index >= self@.len() ==> r is None,
            index < self@.len() ==> r == Some(ascending_arrangement(self@)[index as int]),
    {
        if index >= self.len() {
            return None;
        }
        proof {
            T::lemma_integer();
        }
        let sorted = self.as_sorted_asc();
        proof {
            lemma_ascending_arrangement(self@, sorted@.unref());
            vstd::seq_lib::to_multiset_len(self@);
            vstd::seq_lib::to_multiset_len(sorted@.unref());
        }
        assert(sorted@.unref().len() == sorted@.len());
        assert(sorted@.len() == self@.len());
        Some(*sorted[index])
    }

    /// Return the product of all elements. For empty EnhVec, `product == 1`.
    /// To avoid overflow, multiplications are performed as `i128`.
    pub fn product(&self) -> (r: i128)
        where
            T: Into<i128>,
        requires
            self.wf(),
            forall|k: int| 0 <= k < self@.len() ==> (#[trigger] self@[k]).to_int() <= i128::MAX,
            products_fit(values(self@)),
        ensures
            r == product_of(values(self@)),
    {
        let n = self.len();
        let refs = self.as_ref_vec();
        let ghost s = values(self@);
        let mut acc: i128 = 1;
        let mut i: usize = 0;
        assert(s.take(0) =~= Seq::<int>::empty());
        while i < n
            invariant
                n == self@.len(),
                s == values(self@),
                refs@.len() == n,
                forall|k: int| 0 <= k < n ==> *refs@[k] == #[trigger] self@[k],
                forall|k: int| 0 <= k < self@.len() ==> (#[trigger] self@[k]).to_int() <= i128::MAX,
                products_fit(s),
                i <= n,
                acc == product_of(s.take(i as int)),
            decreases n - i,
        {
            let x = *refs[i];
            proof {
                assert(s.take(i + 1).drop_last() =~= s.take(i as int));
                assert(s[i as int] == x.to_int());
                assert(product_of(s.take(i + 1)) == product_of(s.take(i as int)) * x.to_int());
                assert(i128::MIN <= product_of(s.take(i + 1)) <= i128::MAX);
                assert(self@[i as int].to_int() <= i128::MAX);
            }
            let w = x.widen();
            acc = acc * w;
            i = i + 1;
        }
        assert(s.take(n as int) =~= s);
        acc
    }
}

impl<T: Copy + Eq + core::hash::Hash> EnhVec<T> {
    /// Return the mode (most common) value of the elements: one that no
    /// other value occurs more often than. `None` for an empty [EnhVec].
    pub fn mode(&self) -> (r: Option<T>)
        requires
            self.wf(),
            lawful_eq::<T>(),
        ensures
            r is None <==> self@.len() == 0,
            r matches Some(x) ==> {
                &&& exists|i: int| 0 <= i < self@.len() && self@[i] == x
                &&& forall|j: int| 0 <= j < self@.len() ==> count_eq(self@, #[trigger] self@[j]) <= count_eq(self@, x)
            },
    {
        let n = self.len();
        if n == 0 {
            return None;
        }
        let refs = self.as_ref_vec();
        let mut best: usize = 0;
        let mut best_count = self.count(refs[0]);
        let mut i: usize = 1;
        while i < n
            invariant
                self.wf(),
                lawful_eq::<T>(),
                n == self@.len(),
                refs@.len() == n,
                forall|k: int| 0 <= k < n ==> *refs@[k] == #[trigger] self@[k],
                1 <= i <= n,
                best < n,
                best_count == count_eq(self@, self@[best as int]),
                forall|j: int| 0 <= j < i ==> count_eq(self@, #[trigger] self@[j]) <= best_count,
            decreases n - i,
        {
            let c = self.count(refs[i]);
            if c > best_count {
                best = i;
                best_count = c;
            }
            i = i + 1;
        }
        Some(*refs[best])
    }
}

/// Some element of `v` equals `x`.
fn vec_has<T: PartialEq>(v: &Vec<T>, x: &T) -> (r: bool)
    requires
        lawful_eq::<T>(),
    ensures
        r == has_eq(v@, *x),
{
    let mut i: usize = 0;
    while i < v.len()
        invariant
            lawful_eq::<T>(),
            i <= v@.len(),
            forall|k: int| 0 <= k < i ==> !(#[trigger] v@[k]).eq_spec(x),
        decreases v@.len() - i,
    {
        if v[i] == *x {
            return true;
        }
        i = i + 1;
    }
    false
}

/// Each element of `r` is an element of `v`.
pub open spec fn drawn_from<T>(r: Seq<T>, v: Seq<T>) -> bool {
    forall|i: int| 0 <= i < r.len() ==> exists|k: int| 0 <= k < v.len() && v[k] == #[trigger] r[i]
}

/// No two elements of `s` are equal.
pub open spec fn all_distinct<T: PartialEq>(s: Seq<T>) -> bool {
    forall|i: int, j: int| #![trigger s[i], s[j]] 0 <= i < j < s.len() ==> !s[i].eq_spec(&s[j])
}

impl<T: Copy + Eq + core::hash::Hash + Ord> EnhVec<T> {
    /// Return the distinct (unique) elements, optionally sorted: one element
    /// of each class of equal elements, in ascending or descending order
    /// when `sorted` asks for one.
    pub fn distinct(&self, sorted: Option<Sorting>) -> (r: EnhVec<T>)
        requires
            self.wf(),
            lawful_order::<T>(),
        ensures
            r.inv(),
            r.front() == Seq::<T>::empty(),
            all_distinct(r@),
            forall|i: int| 0 <= i < r@.len() ==> self@.contains(#[trigger] r@[i]),
            forall|k: int| 0 <= k < self@.len() ==> has_eq(r@, #[trigger] self@[k]),
            match sorted {
                Some(s) => s != Sorting::NoOrder ==> in_order(r@, s) && r.known_order() == s
                    && r.preference() == s,
                None => true,
            },
            (sorted is None || sorted == Some(Sorting::NoOrder)) ==> r.known_order()
                == Sorting::NoOrder && r.preference() == Sorting::NoOrder,
    {
        proof {
            lemma_order_basics::<T>();
        }
        let n = self.len();
        let refs = self.as_ref_vec();
        let mut vals: Vec<T> = Vec::new();
        let mut i: usize = 0;
        while i < n
            invariant
                n == self@.len(),
                refs@.len() == n,
                forall|k: int| 0 <= k < n ==> *refs@[k] == #[trigger] self@[k],
                i <= n,
                vals@ == self@.take(i as int),
            decreases n - i,
        {
            vals.push(*refs[i]);
            i = i + 1;
            assert(vals@ =~= self@.take(i as int));
        }
        assert(vals@ =~= self@);
        match sorted {
            Some(s) => {
                if s != Sorting::NoOrder {
                    let desc = s == Sorting::Descending;
                    let ghost unsorted = vals@;
                    merge_sort(&mut vals, desc);
                    let out = dedup_ordered(&vals, desc);
                    proof {
                        broadcast use vstd::seq_lib::group_to_multiset_ensures;

                        assert forall|i: int| 0 <= i < out@.len() implies self@.contains(#[trigger] out@[i]) by {
                            assert(vals@.contains(out@[i]));
                            assert(vals@.to_multiset().count(out@[i]) > 0);
                        }
                        assert forall|k: int| 0 <= k < self@.len() implies has_eq(out@, #[trigger] self@[k]) by {
                            assert(unsorted[k] == self@[k]);
                            assert(unsorted.to_multiset().count(self@[k]) > 0);
                            assert(vals@.contains(self@[k]));
                            let p = choose|p: int| 0 <= p < vals@.len() && vals@[p] == self@[k];
                            assert(has_eq(out@, vals@[p]));
                        }
                        if desc {
                            assert forall|i: int, j: int| #![trigger out@[i], out@[j]] 0 <= i < j < out@.len() implies leq(out@[j], out@[i]) by {
                                assert(precedes(out@[i], out@[j], desc));
                            }
                        } else {
                            assert forall|i: int, j: int| #![trigger out@[i], out@[j]] 0 <= i < j < out@.len() implies leq(out@[i], out@[j]) by {
                                assert(precedes(out@[i], out@[j], desc));
                            }
                        }
                    }
                    return EnhVec::from_sorted(out, s);
                }
            },
            None => {},
        }
        let out = dedup_first(&vals);
        proof {
            assert forall|i: int| 0 <= i < out@.len() implies self@.contains(#[trigger] out@[i]) by {
                let k = choose|k: int| 0 <= k < vals@.len() && vals@[k] == out@[i];
                assert(self@[k] == out@[i]);
            }
        }
        EnhVec::new_from(out)
    }
}

/// One element of each class of equal elements of `v`, in the order of
/// their first occurrence.
fn dedup_first<T: Copy + Ord>(v: &Vec<T>) -> (r: Vec<T>)
    requires
        lawful_order::<T>(),
    ensures
        all_distinct(r@),
        drawn_from(r@, v@),
        forall|k: int| 0 <= k < v@.len() ==> has_eq(r@, #[trigger] v@[k]),
{
    proof {
        lemma_order_basics::<T>();
    }
    let mut out: Vec<T> = Vec::new();
    let mut i: usize = 0;
    while i < v.len()
        invariant
            lawful_order::<T>(),
            i <= v@.len(),
            all_distinct(out@),
            drawn_from(out@, v@),
            forall|k: int| 0 <= k < i ==> has_eq(out@, #[trigger] v@[k]),
        decreases v@.len() - i,
    {
        proof {
            lemma_order_basics::<T>();
        }
        let x = v[i];
        if !vec_has(&out, &x) {
            let ghost before = out@;
            out.push(x);
            proof {
                assert forall|a: int, b: int| #![trigger out@[a], out@[b]] 0 <= a < b < out@.len() implies !out@[a].eq_spec(&out@[b]) by {
                    if b == before.len() {
                        assert(out@[a] == before[a]);
                    } else {
                        assert(out@[a] == before[a] && out@[b] == before[b]);
                    }
                }
                assert forall|k: int| 0 <= k < i + 1 implies has_eq(out@, #[trigger] v@[k]) by {
                    if k < i {
                        let p = choose|p: int| 0 <= p < before.len() && (#[trigger] before[p]).eq_spec(&v@[k]);
                        assert(out@[p] == before[p]);
                    } else {
                        assert(out@[before.len() as int] == x);
                        assert(leq(x, x));
                        assert(x.eq_spec(&x));
                    }
                }
                assert forall|j: int| 0 <= j < out@.len() implies exists|k: int| 0 <= k < v@.len() && v@[k] == #[trigger] out@[j] by {
                    if j < before.len() {
                        assert(out@[j] == before[j]);
                    } else {
                        assert(v@[i as int] == out@[j]);
                    }
                }
            }
        } else {
            assert(has_eq(out@, v@[i as int]));
        }
        i = i + 1;
    }
    out
}

/// One element of each run of equal elements of the ordered `v`.
fn dedup_ordered<T: Copy + Ord>(v: &Vec<T>, desc: bool) -> (r: Vec<T>)
    requires
        lawful_order::<T>(),
        ordered(v@, desc),
    ensures
        all_distinct(r@),
        ordered(r@, desc),
        forall|i: int| 0 <= i < r@.len() ==> v@.contains(#[trigger] r@[i]),
        forall|k: int| 0 <= k < v@.len() ==> has_eq(r@, #[trigger] v@[k]),
{
    proof {
        lemma_order_basics::<T>();
    }
    let mut out: Vec<T> = Vec::new();
    let mut i: usize = 0;
    while i < v.len()
        invariant
            lawful_order::<T>(),
            ordered(v@, desc),
            i <= v@.len(),
            all_distinct(out@),
            ordered(out@, desc),
            forall|j: int| 0 <= j < out@.len() ==> v@.contains(#[trigger] out@[j]),
            forall|j: int, k: int| #![trigger out@[j], v@[k]] 0 <= j < out@.len() && i <= k < v@.len() ==> precedes(out@[j], v@[k], desc),
            out@.len() > 0 ==> exists|p: int| 0 <= p < i && v@[p] == out@.last(),
            forall|k: int| 0 <= k < i ==> has_eq(out@, #[trigger] v@[k]),
        decreases v@.len() - i,
    {
        proof {
            lemma_order_basics::<T>();
        }
        let x = v[i];
        let fresh = if out.len() == 0 {
            true
        } else {
            !(out[out.len() - 1] == x)
        };
        if fresh {
            let ghost before = out@;
            out.push(x);
            proof {
                assert forall|a: int, b: int| #![trigger out@[a], out@[b]] 0 <= a < b < out@.len() implies !out@[a].eq_spec(&out@[b]) && precedes(out@[a], out@[b], desc) by {
                    if b == before.len() {
                        assert(out@[a] == before[a]);
                        assert(precedes(before[a], v@[i as int], desc));
                        if before[a].eq_spec(&x) {
                            let last = before.last();
                            assert(precedes(before[a], last, desc) || a == before.len() - 1);
                            assert(precedes(last, x, desc));
                            if a < before.len() - 1 {
                                assert(precedes(before[a], last, desc));
                                if desc {
                                    lemma_le_trans(last, before[a], x);
                                } else {
                                    lemma_le_trans(x, before[a], last);
                                }
                            }
                            assert(last.eq_spec(&x));
                        }
                    } else {
                        assert(out@[a] == before[a] && out@[b] == before[b]);
                    }
                }
                assert forall|j: int, k: int| #![trigger out@[j], v@[k]] 0 <= j < out@.len() && i + 1 <= k < v@.len() implies precedes(out@[j], v@[k], desc) by {
                    if j == before.len() {
                        assert(precedes(v@[i as int], v@[k], desc));
                    } else {
                        assert(out@[j] == before[j]);
                    }
                }
                assert forall|k: int| 0 <= k < i + 1 implies has_eq(out@, #[trigger] v@[k]) by {
                    if k < i {
                        let p = choose|p: int| 0 <= p < before.len() && (#[trigger] before[p]).eq_spec(&v@[k]);
                        assert(out@[p] == before[p]);
                    } else {
                        assert(out@[before.len() as int] == x);
                        assert(leq(x, x));
                        assert(x.eq_spec(&x));
                    }
                }
                assert forall|j: int| 0 <= j < out@.len() implies v@.contains(#[trigger] out@[j]) by {
                    if j < before.len() {
                        assert(out@[j] == before[j]);
                    } else {
                        assert(v@[i as int] == out@[j]);
                    }
                }
            }
        } else {
            proof {
                assert(out@.last().eq_spec(&x));
                assert(has_eq(out@, v@[i as int]));
                assert forall|j: int, k: int| #![trigger out@[j], v@[k]] 0 <= j < out@.len() && i + 1 <= k < v@.len() implies precedes(out@[j], v@[k], desc) by {
                }
            }
        }
        i = i + 1;
    }
    out
}

} // verus!
