//! The `EnhVec` type: a vector that remembers whether and how it is sorted.
use crate::inner::{insertion_point, EnhVecInner, HEAD_SIZE};
use crate::order::{ascending, descending, lawful_order, leq};
use crate::sorting::{arranged, in_order, lemma_arranged_in_order};
use crate::state::{SortState, Sorting};
use vstd::prelude::*;
use vstd::std_specs::cmp::PartialEqSpec;
use vstd::std_specs::iter::IteratorSpec;

verus! {

/// The order that reversing turns `s` into.
pub open spec fn flipped(s: Sorting) -> Sorting {
    match s {
        Sorting::Ascending => Sorting::Descending,
        Sorting::Descending => Sorting::Ascending,
        Sorting::NoOrder => Sorting::NoOrder,
    }
}

/// What `push(element)` makes of `old`: the element is appended.
pub open spec fn push_result<T>(old: EnhVec<T>, new: EnhVec<T>, element: T) -> bool {
    &&& new@ == old@.push(element)
    &&& new.known_order() == Sorting::NoOrder
    &&& new.preference() == old.preference()
}

/// What `push_swap_front(element)` makes of `old`: the element is appended
/// and then exchanged with the first element.
pub open spec fn push_swap_front_result<T>(old: EnhVec<T>, new: EnhVec<T>, element: T) -> bool {
    &&& new@ == if old@.len() == 0 {
        seq![element]
    } else {
        seq![element] + old@.subrange(1, old@.len() as int) + seq![old@[0]]
    }
    &&& new.known_order() == Sorting::NoOrder
    &&& new.preference() == old.preference()
}

/// What `insert(idx, element)` makes of `old`: the element goes in at
/// position `idx`, the others keep their order around it.
pub open spec fn insert_result<T>(old: EnhVec<T>, new: EnhVec<T>, idx: int, element: T) -> bool {
    &&& new@ == old@.insert(idx, element)
    &&& new.known_order() == Sorting::NoOrder
    &&& new.preference() == old.preference()
}

/// The recorded order of `v` is true of its elements.
pub open spec fn truthful<T: PartialOrd>(v: EnhVec<T>) -> bool {
    &&& v.known_order() == Sorting::Ascending ==> ascending(v@)
    &&& v.known_order() == Sorting::Descending ==> descending(v@)
}

/// What `push_front(element)` makes of `old`: the element goes first, into
/// the front part.
pub open spec fn push_front_result<T>(old: EnhVec<T>, new: EnhVec<T>, element: T) -> bool {
    &&& new@ == seq![element] + old@
    &&& new.front().len() > 0
    &&& new.known_order() == Sorting::NoOrder
    &&& new.preference() == old.preference()
}

/// What `pop` makes of `old` and returns: the last element.
pub open spec fn pop_result<T>(old: EnhVec<T>, new: EnhVec<T>, r: Option<T>) -> bool {
    &&& old@.len() == 0 ==> r == None::<T> && new@ == old@
    &&& old@.len() > 0 ==> r == Some(old@.last()) && new@ == old@.drop_last()
    &&& new.known_order() == old.known_order()
    &&& new.preference() == old.preference()
}

/// What `pop_front` makes of `old` and returns: the first element. When
/// the front part is empty and no order is known, the last element takes
/// the place of the removed one.
pub open spec fn pop_front_result<T>(old: EnhVec<T>, new: EnhVec<T>, r: Option<T>) -> bool {
    &&& old@.len() == 0 ==> r == None::<T> && new@ == old@
    &&& old@.len() > 0 ==> r == Some(old@[0])
    &&& old@.len() > 0 ==> new@ == if old.front().len() == 0 && old.known_order() == Sorting::NoOrder {
        old@.update(0, old@.last()).drop_last()
    } else {
        old@.drop_first()
    }
    &&& new.known_order() == old.known_order()
    &&& new.preference() == old.preference()
}

/// What `reverse` makes of `old`: the elements in reverse order; the known
/// order turns around and becomes the preferred one.
pub open spec fn reverse_result<T>(old: EnhVec<T>, new: EnhVec<T>) -> bool {
    &&& new@ == old@.reverse()
    &&& new.known_order() == flipped(old.known_order())
    &&& new.preference() == new.known_order()
}

/// What `sort(sorting)` makes of `old`: the elements arranged towards
/// `sorting` (see [`arranged`]), and `sorting` becomes the known and the
/// preferred order.
pub open spec fn sort_result<T: PartialOrd>(old: EnhVec<T>, new: EnhVec<T>, sorting: Sorting) -> bool {
    &&& arranged(old@, new@, old.known_order(), sorting)
    &&& new.known_order() == sorting
    &&& new.preference() == sorting
}

/// What `insert_sorted(element)` makes of `old`: elements that are not in
/// ascending order get the element pushed at the end; ascending ones get it
/// at its insertion point (see [`insertion_point`]) and stay ascending.
pub open spec fn insert_sorted_result<T: PartialOrd>(old: EnhVec<T>, new: EnhVec<T>, element: T) -> bool {
    &&& new.preference() == old.preference()
    &&& !ascending(old@) ==> {
        &&& new@ == old@.push(element)
        &&& new.known_order() == Sorting::NoOrder
    }
    &&& ascending(old@) ==> {
        &&& exists|idx: int| insertion_point(old@, element, idx) && new@ == old@.insert(idx, element)
        &&& ascending(new@)
        &&& new.known_order() == if old.known_order() == Sorting::Ascending {
            Sorting::Ascending
        } else {
            Sorting::NoOrder
        }
    }
}

/**
A wrapper around a Vec of elements (objects/items).

This struct provides additional methods for handling elements:
- sorting the elements ascending or descending
- returning references to the elements, also sorted
- pushing elements to the front of the vector

The elements are kept in two parts: a short front part that `push_front`
fills, and the main part. Its view is the front part followed by the main
part; every operation speaks of that sequence, and the recorded sorting
state only ever vouches for an order that the whole sequence is in.
*/
#[derive(Debug, Clone)]
pub struct EnhVec<T> {
    data: EnhVecInner<T>,
    sort: Sorting,
}

impl<T> View for EnhVec<T> {
    type V = Seq<T>;

    open spec fn view(&self) -> Seq<T> {
        self.front() + self.body()
    }
}

impl<T> EnhVec<T> {
    /// The elements of the front part, in the order they are seen.
    pub closed spec fn front(&self) -> Seq<T> {
        self.data.front()
    }

    /// The elements of the main part.
    pub closed spec fn body(&self) -> Seq<T> {
        self.data.main@
    }

    /// The order that the recorded state vouches for.
    pub closed spec fn known_order(&self) -> Sorting {
        self.data.state.known()
    }

    /// The sorting that was last asked for.
    pub closed spec fn preference(&self) -> Sorting {
        self.sort
    }

    /// The front part holds at most `HEAD_SIZE` elements, and the length fits in a `usize`.
    pub open spec fn wf(&self) -> bool {
        &&& self.front().len() <= HEAD_SIZE
        &&& self@.len() <= usize::MAX
    }
}

impl<T: PartialOrd> EnhVec<T> {
    /// Well-formed, and the recorded order is true of the elements. Every
    /// constructor establishes it and every operation keeps it.
    pub open spec fn inv(&self) -> bool {
        &&& self.wf()
        &&& truthful(*self)
    }
}

impl<T> Default for EnhVec<T> {
    fn default() -> (r: Self)
        ensures
            r.wf(),
            r@ == Seq::<T>::empty(),
            r.front() == Seq::<T>::empty(),
            r.known_order() == Sorting::NoOrder,
            r.preference() == Sorting::NoOrder,
    {
        EnhVec { data: EnhVecInner::new(), sort: Sorting::NoOrder }
    }
}

// Technically PartialEq and PartialOrd bounds are not needed for the
// methods in this block, but we want to restrict the types allowed
// in EnhVec to those that can be compared and sorted.
impl<T: PartialEq + PartialOrd> EnhVec<T> {
    fn default() -> (r: Self)
        ensures
            r.inv(),
            r.front() == Seq::<T>::empty(),
            r.body() == Seq::<T>::empty(),
            r.known_order() == Sorting::NoOrder,
            r.preference() == Sorting::NoOrder,
    {
        EnhVec { data: EnhVecInner::new(), sort: Sorting::NoOrder }
    }

    pub fn new() -> (r: Self)
        ensures
            r.inv(),
            r.front() == Seq::<T>::empty(),
            r.body() == Seq::<T>::empty(),
            r.known_order() == Sorting::NoOrder,
            r.preference() == Sorting::NoOrder,
    {
        Self::default()
    }

    pub fn new_sorted(sorting: Sorting) -> (r: Self)
        ensures
            r.inv(),
            r.front() == Seq::<T>::empty(),
            r.body() == Seq::<T>::empty(),
            r.known_order() == Sorting::NoOrder,
            r.preference() == sorting,
    {
        let mut r = Self::default();
        r.sort = sorting;
        r
    }

    pub fn new_with_capacity(capacity: usize) -> (r: Self)
        ensures
            r.inv(),
            r.front() == Seq::<T>::empty(),
            r.body() == Seq::<T>::empty(),
            r.known_order() == Sorting::NoOrder,
            r.preference() == Sorting::NoOrder,
    {
        EnhVec { data: EnhVecInner::with_capacity(capacity), sort: Sorting::NoOrder }
    }

    pub fn new_from(elements: Vec<T>) -> (r: Self)
        ensures
            r.inv(),
            r.front() == Seq::<T>::empty(),
            r.body() == elements@,
            r.known_order() == Sorting::NoOrder,
            r.preference() == Sorting::NoOrder,
    {
        EnhVec { data: EnhVecInner::from_vec(elements), sort: Sorting::NoOrder }
    }

    /// Collect the items of `iter` into a new `EnhVec`.
    pub fn from_iter<I: Iterator<Item = T>>(iter: I) -> (r: Self)
        ensures
            r.inv(),
            iter.obeys_prophetic_iter_laws() ==> r.body() == iter.remaining(),
            r.front() == Seq::<T>::empty(),
            r.known_order() == Sorting::NoOrder,
            r.preference() == Sorting::NoOrder,
    {
        Self::new_from(collect_items(iter))
    }

    /// Insert an element at index `idx`. Possibly slow, as it may shift other elements.
    pub fn insert(&mut self, idx: usize, element: T)
        requires
            old(self).inv(),
            idx <= old(self)@.len(),
            old(self)@.len() < usize::MAX,
        ensures
            final(self).inv(),
            insert_result(*old(self), *final(self), idx as int, element),
    {
        self.data.insert(idx, element);
    }

    /// Push an element to the end of the [EnhVec].
    pub fn push(&mut self, element: T)
        requires
            old(self).inv(),
            old(self)@.len() < usize::MAX,
        ensures
            final(self).inv(),
            push_result(*old(self), *final(self), element),
    {
        self.data.push(element);
    }

    /**
    Insert an element at the start of the [EnhVec].

    NOTE: potentially slow, as it may have to fold the head elements into
    the main Vec. Time complexity: `O(N)` in that case. Prefer `push()`
    and finally `sort()` if you need to maintain a certain order, or
    `push_swap_front()` if you just need the new element to be the
    first one and don't particularly care about the rest.
    */
    pub fn push_front(&mut self, element: T)
        requires
            old(self).inv(),
            old(self)@.len() < usize::MAX,
        ensures
            final(self).inv(),
            push_front_result(*old(self), *final(self), element),
    {
        self.data.push_front(element);
    }

    /**
    Insert an element at the end of the [EnhVec], then swap it with the
    first element. This is a much faster way to push an element to the
    front of the Vec than `push_front()`, as it doesn't require shifting
    all other elements. Time complexity: `O(1)`.
    */
    pub fn push_swap_front(&mut self, element: T)
        requires
            old(self).inv(),
            old(self)@.len() < usize::MAX,
        ensures
            final(self).inv(),
            push_swap_front_result(*old(self), *final(self), element),
    {
        self.data.push_swap_front(element);
    }
}

impl<T> EnhVec<T> {
    /// An `EnhVec` holding `v` in its main part, recorded as sorted towards `sorting`.
    pub(crate) fn from_sorted(v: Vec<T>, sorting: Sorting) -> (r: Self)
        requires
            sorting != Sorting::NoOrder,
        ensures
            r.wf(),
            r.front() == Seq::<T>::empty(),
            r.body() == v@,
            r.known_order() == sorting,
            r.preference() == sorting,
    {
        let mut data = EnhVecInner::from_vec(v);
        data.state = if sorting == Sorting::Ascending {
            SortState::Asc
        } else {
            SortState::Desc
        };
        EnhVec { data, sort: sorting }
    }
}

/// Call `f` once on `a`; the closure itself is left as it was.
fn call_with<A, F: FnMut(A)>(f: &mut F, a: A)
    requires
        call_requires(*old(f), (a,)),
    ensures
        call_ensures(*old(f), (a,), ()),
        *final(f) == *old(f),
{
    broadcast use vstd::function::group_function_axioms;

    f(a)
}

/// Collect the items of `iter` into a `Vec`.
///
/// Calls std's `Iterator::collect`, which builds the `Vec` from the items
/// that `next` yields, in order, until it yields `None`. The contract claims
/// that, for an iterator that obeys vstd's iterator laws, these are the
/// items it has yet to yield; of another iterator nothing is claimed.
#[verifier::external_body]
fn collect_items<T, I: Iterator<Item = T>>(iter: I) -> (r: Vec<T>)
    ensures
        iter.obeys_prophetic_iter_laws() ==> r@ == iter.remaining(),
{
    iter.collect()
}

/// `std::slice::IterMut`, the iterator that hands out a mutable reference
/// to each element of a slice in turn.
#[verifier::external_type_specification]
#[verifier::external_body]
#[verifier::reject_recursive_types(T)]
pub struct ExSliceIterMut<'a, T: 'a>(std::slice::IterMut<'a, T>);

/// A mutable iterator over the elements of `v`.
///
/// Calls `<[T]>::iter_mut` on the vector's elements. As std documents it,
/// the iterator yields a mutable reference to each element, front to back,
/// and then `None` for good (it is a fused iterator). The contract claims
/// that: it obeys vstd's iterator laws and will end; what it has yet to
/// yield is one reference per element, in order, the i-th pointing at the
/// i-th element, so that the element ends up as that reference's final
/// value; the vector keeps its length.
#[verifier::external_body]
fn slice_iter_mut<'a, T>(v: &'a mut Vec<T>) -> (r: std::slice::IterMut<'a, T>)
    ensures
        r.obeys_prophetic_iter_laws(),
        r.will_return_none(),
        r.remaining().len() == old(v)@.len(),
        forall|i: int| #![trigger r.remaining()[i]]
            0 <= i < old(v)@.len() ==> *r.remaining()[i] == old(v)@[i] && *final(r.remaining()[i]) == final(v)@[i],
        final(v)@.len() == old(v)@.len(),
{
    v.iter_mut()
}

// Generic methods for all types
impl<T> EnhVec<T> {
    /// Return a [Vec] of references to entries.
    pub fn as_ref_vec(&self) -> (r: Vec<&T>)
        ensures
            r@.len() == self@.len(),
            forall|i: int| 0 <= i < r@.len() ==> *r@[i] == #[trigger] self@[i],
    {
        self.data.refs()
    }

    /// An iterator over references to the elements, front part first.
    pub fn iter(&self) -> (r: std::vec::IntoIter<&T>)
        requires
            self.wf(),
        ensures
            r.remaining().unref() == self@,
    {
        let refs = self.as_ref_vec();
        proof {
            broadcast use vstd::std_specs::vec::axiom_spec_into_iter;

            assert(refs@.unref() =~= self@);
        }
        refs.into_iter()
    }

    /// Run a closure on each element, in order: `f` is called once on each
    /// element, front part included.
    pub fn for_each(&self, mut f: impl FnMut(&T))
        requires
            self.wf(),
            forall|i: int| 0 <= i < self@.len() ==> call_requires(f, (&#[trigger] self@[i],)),
        ensures
            forall|i: int| 0 <= i < self@.len() ==> call_ensures(f, (&#[trigger] self@[i],), ()),
    {
        let ghost f0 = f;
        let n = self.data.len();
        let mut i: usize = 0;
        while i < n
            invariant
                self.wf(),
                n == self@.len(),
                i <= n,
                f == f0,
                forall|k: int| 0 <= k < self@.len() ==> call_requires(f0, (&#[trigger] self@[k],)),
                forall|k: int| 0 <= k < i ==> call_ensures(f0, (&#[trigger] self@[k],), ()),
            decreases n - i,
        {
            let x = self.data.get(i);
            assert(call_requires(f, (&self@[i as int],)));
            call_with(&mut f, x);
            i = i + 1;
        }
    }

    /// Run a closure on each element, in order, if the predicate is true:
    /// the predicate is asked once of each element, and `f` is called once on
    /// each element it accepted. `ks` holds the predicate's answers.
    pub fn for_each_if(&self, mut f: impl FnMut(&T), predicate: impl Fn(&T) -> bool)
        requires
            self.wf(),
            forall|i: int| 0 <= i < self@.len() ==> call_requires(predicate, (&#[trigger] self@[i],)),
            forall|i: int|
                0 <= i < self@.len() && call_ensures(predicate, (&#[trigger] self@[i],), true)
                    ==> call_requires(f, (&self@[i],)),
        ensures
            exists|ks: Seq<bool>| #[trigger] ks.len() == self@.len() && forall|i: int| #![trigger ks[i]]
                0 <= i < self@.len() ==> call_ensures(predicate, (&self@[i],), ks[i]) && (ks[i]
                    ==> call_ensures(f, (&self@[i],), ())),
    {
        let ghost f0 = f;
        let ghost mut ks: Seq<bool> = Seq::empty();
        let n = self.data.len();
        let mut i: usize = 0;
        while i < n
            invariant
                self.wf(),
                n == self@.len(),
                i <= n,
                f == f0,
                ks.len() == i,
                forall|k: int| 0 <= k < self@.len() ==> call_requires(predicate, (&#[trigger] self@[k],)),
                forall|k: int|
                    0 <= k < self@.len() && call_ensures(predicate, (&#[trigger] self@[k],), true)
                        ==> call_requires(f0, (&self@[k],)),
                forall|k: int| #![trigger ks[k]]
                    0 <= k < i ==> call_ensures(predicate, (&self@[k],), ks[k]) && (ks[k] ==> call_ensures(
                        f0,
                        (&self@[k],),
                        (),
                    )),
            decreases n - i,
        {
            let x = self.data.get(i);
            assert(call_requires(predicate, (&self@[i as int],)));
            let ghost ks0 = ks;
            let chosen = predicate(x);
            proof {
                ks = ks.push(chosen);
            }
            if chosen {
                call_with(&mut f, x);
            }
            assert(ks[i as int] == chosen);
            assert(forall|k: int| 0 <= k < i ==> ks[k] == ks0[k]);
            i = i + 1;
        }
    }

    /// The length of the [EnhVec] (the sum of the lengths of its two parts).
    pub fn len(&self) -> (r: usize)
        requires
            self.wf(),
        ensures
            r == self@.len(),
    {
        self.data.len()
    }

    /// Whether the [EnhVec] is empty.
    pub fn is_empty(&self) -> (r: bool)
        ensures
            r == (self@.len() == 0),
    {
        self.data.is_empty()
    }

    pub fn first(&self) -> (r: Option<&T>)
        ensures
            r == (if self@.len() == 0 { None } else { Some(&self@[0]) }),
    {
        self.data.first()
    }

    pub fn last(&self) -> (r: Option<&T>)
        ensures
            r == (if self@.len() == 0 { None } else { Some(&self@.last()) }),
    {
        self.data.last()
    }

    /// Consume the [EnhVec] and return its elements as a [Vec<T>].
    pub fn into_vec(self) -> (r: Vec<T>)
        requires
            self.wf(),
        ensures
            r@ == self@,
    {
        let EnhVec { data, sort: _ } = self;
        let EnhVecInner { state: _, head, main } = data;
        let mut head = head;
        let mut main = main;
        crate::sorting::reverse_vec(&mut head);
        head.append(&mut main);
        head
    }
}

impl<T: PartialOrd> EnhVec<T> {
    /// Reverse the order of the elements in place. [Sorting] is updated.
    pub fn reverse(&mut self)
        requires
            old(self).inv(),
        ensures
            final(self).inv(),
            reverse_result(*old(self), *final(self)),
    {
        self.data.reverse();
        proof {
            crate::order::lemma_reverse_order(old(self)@);
        }
        match self.data.state {
            SortState::Changed | SortState::Unsorted => {
                self.sort = Sorting::NoOrder;
            },
            SortState::Asc => {
                self.sort = Sorting::Ascending;
            },
            SortState::Desc => {
                self.sort = Sorting::Descending;
            },
        }
    }

    /// Run a mutating closure for each element, in order. Each element
    /// becomes what one call of `f` on a reference to it left behind.
    pub fn modify_each(&mut self, mut f: impl FnMut(&mut T))
        requires
            old(self).inv(),
            forall|x: &mut T| #![trigger call_requires(f, (x,))] old(self)@.contains(*x) ==> call_requires(f, (x,)),
        ensures
            final(self).inv(),
            final(self)@.len() == old(self)@.len(),
            exists|xs: Seq<&mut T>| #[trigger] xs.len() == old(self)@.len() && forall|i: int| #![trigger xs[i]]
                0 <= i < xs.len() ==> *xs[i] == old(self)@[i] && *final(xs[i]) == final(self)@[i]
                    && call_ensures(f, (xs[i],), ()),
            final(self).known_order() == Sorting::NoOrder,
            final(self).preference() == old(self).preference(),
    {
        self.data.compact();
        self.data.set_changed();
        let ghost o = self.data.main@;
        let ghost f0 = f;
        let ghost mut rs: Seq<&mut T> = Seq::empty();
        let n = self.data.main.len();
        let mut i: usize = 0;
        while i < n
            invariant
                forall|x: &mut T| #![trigger call_requires(f, (x,))] o.contains(*x) ==> call_requires(f, (x,)),
                f == f0,
                i <= n,
                self.data.head@.len() == 0,
                self.data.main@.len() == n,
                o == old(self)@,
                n == o.len(),
                rs.len() == i,
                forall|j: int| i <= j < n ==> self.data.main@[j] == o[j],
                forall|j: int| #![trigger rs[j]]
                    0 <= j < i ==> *rs[j] == o[j] && *final(rs[j]) == self.data.main@[j]
                        && call_ensures(f0, (rs[j],), ()),
                self.data.state == SortState::Changed,
                self.sort == old(self).sort,
            decreases n - i,
        {
            let ghost pre = self.data.main@;
            let r = &mut self.data.main[i];
            let ghost rr = r;
            assert(o.contains(*rr)) by {
                assert(o[i as int] == *rr);
            }
            call_with(&mut f, { r });
            proof {
                rs = rs.push(rr);
            }
            assert(self.data.main@ == pre.update(i as int, *final(rr)));
            i = i + 1;
        }
        assert(self@ =~= self.data.main@);
        assert(rs.len() == old(self)@.len());
    }

    /// Run a mutating closure for each element, in order, if the predicate
    /// is true for it; the other elements stay as they are. For each element,
    /// `ks` holds the predicate's answer and `xs` the reference `f` was
    /// called on, where it was.
    pub fn modify_each_if(&mut self, mut f: impl FnMut(&mut T), predicate: impl Fn(&T) -> bool)
        requires
            old(self).inv(),
            forall|x: &T| #![trigger call_requires(predicate, (x,))] old(self)@.contains(*x) ==> call_requires(predicate, (x,)),
            forall|x: &mut T| #![trigger call_requires(f, (x,))]
                old(self)@.contains(*x) && call_ensures(predicate, (&*x,), true) ==> call_requires(f, (x,)),
        ensures
            final(self).inv(),
            final(self)@.len() == old(self)@.len(),
            exists|xs: Seq<&mut T>, ks: Seq<bool>|
                #![trigger xs.len(), ks.len()]
                xs.len() == old(self)@.len() && ks.len() == old(self)@.len() && forall|i: int|
                    #![trigger xs[i]]
                    0 <= i < xs.len() ==> {
                        &&& ks[i] ==> call_ensures(predicate, (&old(self)@[i],), true) && *xs[i] == old(self)@[i]
                            && *final(xs[i]) == final(self)@[i] && call_ensures(f, (xs[i],), ())
                        &&& !ks[i] ==> call_ensures(predicate, (&old(self)@[i],), false) && final(self)@[i] == old(self)@[i]
                    },
            final(self).known_order() == Sorting::NoOrder,
            final(self).preference() == old(self).preference(),
    {
        self.data.compact();
        self.data.set_changed();
        let ghost o = self.data.main@;
        let ghost f0 = f;
        let ghost mut rs: Seq<&mut T> = Seq::empty();
        let ghost mut ks: Seq<bool> = Seq::empty();
        let n = self.data.main.len();
        let mut i: usize = 0;
        while i < n
            invariant
                forall|x: &T| #![trigger call_requires(predicate, (x,))] o.contains(*x) ==> call_requires(predicate, (x,)),
                forall|x: &mut T| #![trigger call_requires(f, (x,))]
                    o.contains(*x) && call_ensures(predicate, (&*x,), true) ==> call_requires(f, (x,)),
                f == f0,
                i <= n,
                self.data.head@.len() == 0,
                self.data.main@.len() == n,
                o == old(self)@,
                n == o.len(),
                rs.len() == i,
                ks.len() == i,
                forall|j: int| i <= j < n ==> self.data.main@[j] == o[j],
                forall|j: int| #![trigger ks[j]]
                    0 <= j < i ==> {
                        &&& ks[j] ==> call_ensures(predicate, (&o[j],), true) && *rs[j] == o[j]
                            && call_ensures(f0, (rs[j],), ())
                        &&& !ks[j] ==> call_ensures(predicate, (&o[j],), false) && self.data.main@[j] == o[j]
                    },
                forall|j: int| #![trigger rs[j]] 0 <= j < i ==> ks[j] ==> *final(rs[j]) == self.data.main@[j],
                self.data.state == SortState::Changed,
                self.sort == old(self).sort,
            decreases n - i,
        {
            let ghost pre = self.data.main@;
            let ghost rs0 = rs;
            let ghost ks0 = ks;
            assert(o.contains(self.data.main@[i as int])) by {
                assert(o[i as int] == self.data.main@[i as int]);
            }
            let chosen = predicate(&self.data.main[i]);
            assert(call_ensures(predicate, (&o[i as int],), chosen));
            proof {
                ks = ks.push(chosen);
            }
            if chosen {
                let r = &mut self.data.main[i];
                let ghost rr = r;
                assert(o.contains(*rr) && call_ensures(predicate, (&*rr,), true)) by {
                    assert(o[i as int] == *rr);
                }
                call_with(&mut f, { r });
                proof {
                    rs = rs.push(rr);
                }
                assert(self.data.main@ == pre.update(i as int, *final(rr)));
                assert(*rs[i as int] == o[i as int] && *final(rs[i as int]) == self.data.main@[i as int]
                    && call_ensures(f0, (rs[i as int],), ()));
            } else {
                proof {
                    rs = rs.push(arbitrary());
                }
                assert(self.data.main@[i as int] == o[i as int]);
            }
            assert(ks[i as int] == chosen);
            assert(forall|j: int| 0 <= j < i ==> rs[j] == rs0[j] && ks[j] == ks0[j] && self.data.main@[j] == pre[j]);
            i = i + 1;
        }
        assert(self@ =~= self.data.main@);
        assert(rs.len() == old(self)@.len() && ks.len() == old(self)@.len());
    }

    /// Remove and return the last element, if any.
    pub fn pop(&mut self) -> (r: Option<T>)
        requires
            old(self).inv(),
        ensures
            final(self).inv(),
            pop_result(*old(self), *final(self), r),
    {
        let r = self.data.pop();
        proof {
            if old(self)@.len() == 0 {
                assert(self.data.head@.reverse() =~= old(self).data.head@.reverse());
            }
        }
        r
    }

    /// Remove and return the first element, if any. When the front part is
    /// empty and no order is known, the last element of the main part takes
    /// the place of the removed one.
    pub fn pop_front(&mut self) -> (r: Option<T>)
        requires
            old(self).inv(),
        ensures
            final(self).inv(),
            pop_front_result(*old(self), *final(self), r),
    {
        let r = self.data.pop_front();
        proof {
            let o = old(self)@;
            if o.len() == 0 {
                assert(self.data.head@.reverse() =~= old(self).data.head@.reverse());
            } else {
                if old(self).data.head@.len() > 0 {
                    assert(self@ =~= o.drop_first());
                } else {
                    assert(o =~= old(self).data.main@);
                    assert(self.data.head@.reverse() =~= Seq::<T>::empty());
                    assert(self@ =~= self.data.main@);
                }
                if self.known_order() != Sorting::NoOrder {
                    let y = self@;
                    assert(y == o.drop_first());
                    assert forall|i: int, j: int| #![trigger y[i], y[j]] 0 <= i < j < y.len() implies y[i] == o[i + 1] && y[j] == o[j + 1] by {
                    }
                    if self.known_order() == Sorting::Ascending {
                        assert forall|i: int, j: int| #![trigger y[i], y[j]] 0 <= i < j < y.len() implies leq(y[i], y[j]) by {
                            assert(leq(o[i + 1], o[j + 1]));
                        }
                    } else {
                        assert forall|i: int, j: int| #![trigger y[i], y[j]] 0 <= i < j < y.len() implies leq(y[j], y[i]) by {
                            assert(leq(o[j + 1], o[i + 1]));
                        }
                    }
                }
            }
        }
        r
    }

    /// Return a [Vec] of mutable references to all entries, in order. The
    /// front part is folded into the main part first, and the recorded order
    /// is dropped, since the elements may change.
    pub fn as_mut_ref_vec(&mut self) -> (r: Vec<&mut T>)
        requires
            old(self).inv(),
        ensures
            final(self).inv(),
            final(self)@.len() == old(self)@.len(),
            r@.len() == old(self)@.len(),
            forall|i: int| #![trigger r@[i]]
                0 <= i < r@.len() ==> *r@[i] == old(self)@[i] && *final(r@[i]) == final(self)@[i],
            final(self).known_order() == Sorting::NoOrder,
            final(self).preference() == old(self).preference(),
    {
        collect_items(self.iter_mut())
    }

    /// A mutable iterator over all elements, in order. The front part is
    /// folded into the main part first, and the recorded order is dropped,
    /// since the elements may change.
    pub fn iter_mut(&mut self) -> (r: std::slice::IterMut<'_, T>)
        requires
            old(self).inv(),
        ensures
            final(self).inv(),
            final(self)@.len() == old(self)@.len(),
            r.obeys_prophetic_iter_laws(),
            r.will_return_none(),
            r.remaining().len() == old(self)@.len(),
            forall|i: int| #![trigger r.remaining()[i]]
                0 <= i < old(self)@.len() ==> *r.remaining()[i] == old(self)@[i] && *final(r.remaining()[i])
                    == final(self)@[i],
            final(self).known_order() == Sorting::NoOrder,
            final(self).preference() == old(self).preference(),
    {
        self.data.compact();
        self.data.set_changed();
        proof {
            assert(self.data.head@.reverse() =~= Seq::<T>::empty());
        }
        slice_iter_mut(&mut self.data.main)
    }
}

impl<T: Clone> EnhVec<T> {
    /// Clone the elements into a new regular [Vec<T>].
    pub fn to_vec(&self) -> (r: Vec<T>)
        requires
            self.wf(),
        ensures
            r@.len() == self@.len(),
            forall|i: int| 0 <= i < r@.len() ==> cloned(#[trigger] self@[i], r@[i]),
    {
        let n = self.data.len();
        let mut r: Vec<T> = Vec::new();
        let mut i: usize = 0;
        while i < n
            invariant
                self.wf(),
                n == self@.len(),
                i <= n,
                r@.len() == i,
                forall|k: int| 0 <= k < i ==> cloned(#[trigger] self@[k], r@[k]),
            decreases n - i,
        {
            let x = self.data.get(i);
            r.push(x.clone());
            i = i + 1;
        }
        r
    }
}

impl<T: Ord> EnhVec<T> {
    /**
    Whether the [EnhVec] is sorted in ascending order. Worst case time
    complexity: `O(N)`, as it may have to compare each element with the next.

    NOTE: an empty or 1-element EnhVec is considered sorted.
    */
    pub fn is_sorted(&self) -> (r: bool)
        requires
            self.inv(),
            lawful_order::<T>(),
        ensures
            r == ascending(self@),
    {
        self.data.is_sorted()
    }

    /**
    Insert an element into the [EnhVec] in sorted order.

    NOTE: data must be sorted ASC for this insert to make much sense.
    If the data is not sorted, the insertion point would be more or less
    random, hence in this case we just `push()` the element to the end.

    NOTE: if you need to add many elements, it will likely be faster to push()
    and finally sort() after all the insertions are done, as sorting is
    `O(N log N)`.
    */
    pub fn insert_sorted(&mut self, element: T)
        requires
            old(self).inv(),
            lawful_order::<T>(),
            old(self)@.len() < usize::MAX,
        ensures
            final(self).inv(),
            insert_sorted_result(*old(self), *final(self), element),
    {
        if !self.is_sorted() {
            self.data.push(element);
            return;
        }
        self.data.insert_sorted(element);
    }

    /// Set the preferred sorting of the [EnhVec] and sort all elements
    /// towards it (nothing moves for `NoOrder`).
    pub fn sort(&mut self, sorting: Sorting)
        requires
            old(self).inv(),
            lawful_order::<T>(),
        ensures
            final(self).inv(),
            sort_result(*old(self), *final(self), sorting),
            in_order(final(self)@, sorting),
            final(self)@.to_multiset() == old(self)@.to_multiset(),
    {
        self.data.sort(&sorting);
        self.sort = sorting;
        proof {
            if sorting == Sorting::NoOrder {
                assert(self@ == old(self)@);
            } else {
                lemma_arranged_in_order(old(self)@, self@, old(self).known_order(), sorting);
            }
        }
    }

    /// Return references to all entries in ascending order, trusting the
    /// recorded state to skip or shorten the work.
    pub fn as_sorted_asc(&self) -> (r: Vec<&T>)
        ensures
            lawful_order::<T>() ==> arranged(self@, r@.unref(), self.known_order(), Sorting::Ascending),
            lawful_order::<T>() && self.inv() ==> ascending(r@.unref()) && r@.unref().to_multiset() == self@.to_multiset(),
    {
        let mut vec: Vec<&T> = self.as_ref_vec();
        let ghost before = vec@;
        proof {
            assert(before.unref() =~= self@);
            if lawful_order::<T>() {
                crate::order::lemma_ref_lawful::<T>();
            }
        }
        crate::sorting::sort_vec(&mut vec, &self.data.state, &Sorting::Ascending);
        proof {
            if lawful_order::<T>() {
                crate::order::lemma_ref_lawful::<T>();
                crate::sorting::lemma_arranged_unref(before, vec@, self.known_order(), Sorting::Ascending);
                if self.inv() {
                    lemma_arranged_in_order(self@, vec@.unref(), self.known_order(), Sorting::Ascending);
                }
            }
        }
        vec
    }

    /// Return references to all entries in descending order, trusting the
    /// recorded state to skip or shorten the work.
    pub fn as_sorted_desc(&self) -> (r: Vec<&T>)
        ensures
            lawful_order::<T>() ==> arranged(self@, r@.unref(), self.known_order(), Sorting::Descending),
            lawful_order::<T>() && self.inv() ==> descending(r@.unref()) && r@.unref().to_multiset() == self@.to_multiset(),
    {
        let mut vec: Vec<&T> = self.as_ref_vec();
        let ghost before = vec@;
        proof {
            assert(before.unref() =~= self@);
            if lawful_order::<T>() {
                crate::order::lemma_ref_lawful::<T>();
            }
        }
        crate::sorting::sort_vec(&mut vec, &self.data.state, &Sorting::Descending);
        proof {
            if lawful_order::<T>() {
                crate::order::lemma_ref_lawful::<T>();
                crate::sorting::lemma_arranged_unref(before, vec@, self.known_order(), Sorting::Descending);
                if self.inv() {
                    lemma_arranged_in_order(self@, vec@.unref(), self.known_order(), Sorting::Descending);
                }
            }
        }
        vec
    }
}

impl<T: PartialEq + PartialOrd> From<Vec<T>> for EnhVec<T> {
    /// An `EnhVec` of the elements of `v`, as `new_from` gives it.
    fn from(v: Vec<T>) -> (r: Self)
        ensures
            r.inv(),
            r@ == v@,
            r.front() == Seq::<T>::empty(),
            r.known_order() == Sorting::NoOrder,
            r.preference() == Sorting::NoOrder,
    {
        Self::new_from(v)
    }
}

impl<T: PartialEq + PartialOrd> vstd::std_specs::convert::FromSpecImpl<Vec<T>> for EnhVec<T> {
    /// The result is not one value of `from_spec`: the storage it sets up
    /// is not a spec value; its own contract states its elements.
    open spec fn obeys_from_spec() -> bool {
        false
    }

    open spec fn from_spec(v: Vec<T>) -> Self {
        choose|r: Self| r@ == v@ && r.front() == Seq::<T>::empty() && r.known_order() == Sorting::NoOrder
            && r.preference() == Sorting::NoOrder
    }
}

/// `a` and `b` have the same length and equal elements at each position.
pub open spec fn pointwise_eq<T: PartialEq>(a: Seq<T>, b: Seq<T>) -> bool {
    &&& a.len() == b.len()
    &&& forall|i: int| 0 <= i < a.len() ==> (#[trigger] a[i]).eq_spec(&b[i])
}

impl<T: PartialEq> PartialEq for EnhVec<T> {
    /// Two `EnhVec`s are equal when both their front parts and their main parts are.
    fn eq(&self, other: &Self) -> (r: bool) {
        let r = self.data.head == other.data.head && self.data.main == other.data.main;
        proof {
            let a = self.data.head@;
            let b = other.data.head@;
            if a.len() == b.len() {
                if forall|i: int| 0 <= i < a.len() ==> (#[trigger] a[i]).eq_spec(&b[i]) {
                    assert forall|i: int| 0 <= i < a.len() implies (#[trigger] a.reverse()[i]).eq_spec(&b.reverse()[i]) by {
                        assert(a.reverse()[i] == a[a.len() - 1 - i]);
                        assert(b.reverse()[i] == b[b.len() - 1 - i]);
                    }
                } else {
                    let i = choose|i: int| 0 <= i < a.len() && !(#[trigger] a[i]).eq_spec(&b[i]);
                    let j = a.len() - 1 - i;
                    assert(a.reverse()[j] == a[i]);
                    assert(b.reverse()[j] == b[i]);
                }
            }
        }
        r
    }
}

impl<T: PartialEq> vstd::std_specs::cmp::PartialEqSpecImpl for EnhVec<T> {
    open spec fn obeys_eq_spec() -> bool {
        T::obeys_eq_spec()
    }

    open spec fn eq_spec(&self, other: &Self) -> bool {
        pointwise_eq(self.front(), other.front()) && pointwise_eq(self.body(), other.body())
    }
}

/// Feed `x` to `state`.
///
/// Calls `Hash::hash` of `T`; what it feeds depends on that impl, so
/// nothing is claimed of it.
#[verifier::external_body]
fn hash_element<T: core::hash::Hash, H: core::hash::Hasher>(x: &T, state: &mut H) {
    x.hash(state)
}

/// Feed `items`, the elements of `v` in ascending order, to `state`, one
/// after the other. What may be fed is fixed by the requirement: an ascending
/// sequence of exactly the elements of `v`, which for exact equality is one
/// sequence only (see `law_hash_feed_order_independent`).
fn feed_ascending<T: Ord + core::hash::Hash, H: core::hash::Hasher>(v: &EnhVec<T>, items: &Vec<&T>, state: &mut H)
    requires
        lawful_order::<T>() && v.inv() ==> ascending(items@.unref()) && items@.unref().to_multiset()
            == v@.to_multiset(),
{
    let mut i: usize = 0;
    while i < items.len()
        decreases items.len() - i,
    {
        hash_element(items[i], state);
        i = i + 1;
    }
}

impl<T: Ord + core::hash::Hash> core::hash::Hash for EnhVec<T> {
    /// Hash the elements in ascending order (see `as_sorted_asc`), so that
    /// the same elements give the same hash whatever order they were added
    /// in. Since the standard hasher is not stable, the output changes each
    /// time the standard hasher's `RandomState` changes.
    fn hash<H: core::hash::Hasher>(&self, state: &mut H) {
        let sorted = self.as_sorted_asc();
        feed_ascending(self, &sorted, state);
    }
}

impl<T> core::ops::Index<usize> for EnhVec<T> {
    type Output = T;

    fn index(&self, index: usize) -> (r: &T)
        ensures
            *r == self@[index as int],
    {
        self.data.get(index)
    }
}

impl<T: PartialOrd> core::ops::IndexMut<usize> for EnhVec<T> {
    /// A mutable reference to the element at `index`; since the element
    /// may change, the recorded order is dropped.
    fn index_mut(&mut self, index: usize) -> (r: &mut T)
        requires
            old(self).inv(),
            index < old(self)@.len(),
        ensures
            final(self).inv(),
            *r == old(self)@[index as int],
            final(self)@ == old(self)@.update(index as int, *final(r)),
            final(self).known_order() == Sorting::NoOrder,
            final(self).preference() == old(self).preference(),
    {
        self.data.get_mut(index)
    }
}

impl<T> vstd::std_specs::core::IndexSpecImpl<usize> for EnhVec<T> {
    open spec fn index_req(&self, index: &usize) -> bool {
        *index < self@.len()
    }
}

} // verus!
