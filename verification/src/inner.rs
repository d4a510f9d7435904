//! The storage behind an `EnhVec`: a short front part, kept reversed so
//! that pushing to the front is cheap, and the main part.
use crate::order::{
    adjacent_ascending,
    ascending,
    descending,
    lawful_order,
    lemma_adjacent_ascending,
    lemma_le_trans,
    lemma_order_basics,
    leq,
};
use crate::sorting::{arranged, first_greater, sort_vec, upper_bound};
use crate::state::{state_after_sort, SortState, Sorting};
use vstd::prelude::*;

verus! {

/// How many elements the front part holds before it is folded into the main part.
pub const HEAD_SIZE: usize = 16;

/// Below this many elements, `insert_sorted` searches linearly; from it on, by halving.
pub const SORT_SIZE_CUTOFF: usize = 20;

/// Where `insert_sorted` puts `e` into `m`: linearly, before the first
/// element greater than `e`; by halving (from `SORT_SIZE_CUTOFF` elements
/// on), between an element at most `e` and one greater than it.
pub open spec fn insertion_point<T: PartialOrd>(m: Seq<T>, e: T, idx: int) -> bool {
    &&& 0 <= idx <= m.len()
    &&& idx < m.len() ==> !leq(m[idx], e)
    &&& if m.len() < SORT_SIZE_CUTOFF {
        forall|k: int| 0 <= k < idx ==> leq(#[trigger] m[k], e)
    } else {
        idx > 0 ==> leq(m[idx - 1], e)
    }
}

#[derive(Debug, Clone)]
pub(crate) struct EnhVecInner<T> {
    pub(crate) state: SortState,
    pub(crate) head: Vec<T>,
    pub(crate) main: Vec<T>,
}

impl<T> EnhVecInner<T> {
    /// The front elements in the order they are seen.
    pub(crate) open spec fn front(&self) -> Seq<T> {
        self.head@.reverse()
    }

    pub(crate) open spec fn all(&self) -> Seq<T> {
        self.front() + self.main@
    }

    pub(crate) open spec fn wf(&self) -> bool {
        &&& self.head@.len() <= HEAD_SIZE
        &&& self.head@.len() + self.main@.len() <= usize::MAX
    }

    pub(crate) fn new() -> (r: Self)
        ensures
            r.wf(),
            r.head@ == Seq::<T>::empty(),
            r.main@ == Seq::<T>::empty(),
            r.state == SortState::Unsorted,
    {
        EnhVecInner { state: SortState::Unsorted, head: Vec::with_capacity(HEAD_SIZE), main: Vec::new() }
    }

    pub(crate) fn with_capacity(capacity: usize) -> (r: Self)
        ensures
            r.wf(),
            r.head@ == Seq::<T>::empty(),
            r.main@ == Seq::<T>::empty(),
            r.state == SortState::Unsorted,
    {
        let mut r = Self::new();
        r.main = Vec::with_capacity(capacity);
        r
    }

    pub(crate) fn from_vec(v: Vec<T>) -> (r: Self)
        ensures
            r.wf(),
            r.head@ == Seq::<T>::empty(),
            r.main@ == v@,
            r.state == SortState::Unsorted,
    {
        // Reading the length brings in that it fits in a `usize`.
        let _len = v.len();
        let mut r = Self::new();
        r.main = v;
        r
    }

    pub(crate) fn len(&self) -> (r: usize)
        requires
            self.wf(),
        ensures
            r == self.all().len(),
    {
        self.main.len() + self.head.len()
    }

    pub(crate) fn is_empty(&self) -> (r: bool)
        ensures
            r == (self.all().len() == 0),
    {
        self.head.len() == 0 && self.main.len() == 0
    }

    pub(crate) fn first(&self) -> (r: Option<&T>)
        ensures
            r == (if self.all().len() == 0 { None } else { Some(&self.all()[0]) }),
    {
        if self.head.len() > 0 {
            Some(&self.head[self.head.len() - 1])
        } else if self.main.len() > 0 {
            Some(&self.main[0])
        } else {
            None
        }
    }

    pub(crate) fn last(&self) -> (r: Option<&T>)
        ensures
            r == (if self.all().len() == 0 { None } else { Some(&self.all().last()) }),
    {
        if self.main.len() > 0 {
            Some(&self.main[self.main.len() - 1])
        } else if self.head.len() > 0 {
            Some(&self.head[0])
        } else {
            None
        }
    }

    /// The element at `index`, counted over the front part and then the main part.
    pub(crate) fn get(&self, index: usize) -> (r: &T)
        requires
            index < self.all().len(),
        ensures
            *r == self.all()[index as int],
    {
        let head_len = self.head.len();
        if index < head_len {
            &self.head[head_len - 1 - index]
        } else {
            &self.main[index - head_len]
        }
    }

    /// A mutable reference to the element at `index`, counted over the front
    /// part and then the main part; the order is recorded as changed.
    pub(crate) fn get_mut(&mut self, index: usize) -> (r: &mut T)
        requires
            index < old(self).all().len(),
        ensures
            *r == old(self).all()[index as int],
            final(self).all() == old(self).all().update(index as int, *final(r)),
            final(self).head@.len() == old(self).head@.len(),
            final(self).main@.len() == old(self).main@.len(),
            final(self).state == SortState::Changed,
    {
        self.set_changed();
        let head_len = self.head.len();
        if index < head_len {
            let r = &mut self.head[head_len - 1 - index];
            proof {
                assert(old(self).all() =~= old(self).head@.reverse() + old(self).main@);
            }
            r
        } else {
            &mut self.main[index - head_len]
        }
    }

    /// Record that the order of the elements may have changed.
    pub(crate) fn set_changed(&mut self)
        ensures
            final(self).state == SortState::Changed,
            final(self).head@ == old(self).head@,
            final(self).main@ == old(self).main@,
    {
        if self.state != SortState::Changed {
            self.state = SortState::Changed;
        }
    }

    /// Insert `element` at position `idx` of the whole sequence; the front
    /// part is folded into the main part first.
    pub(crate) fn insert(&mut self, idx: usize, element: T)
        requires
            old(self).wf(),
            idx <= old(self).all().len(),
            old(self).all().len() < usize::MAX,
        ensures
            final(self).wf(),
            final(self).head@ == Seq::<T>::empty(),
            final(self).all() == old(self).all().insert(idx as int, element),
            final(self).state == SortState::Changed,
    {
        self.compact();
        self.main.insert(idx, element);
        self.set_changed();
        assert(self.all() =~= self.main@);
    }

    pub(crate) fn push(&mut self, element: T)
        requires
            old(self).wf(),
            old(self).all().len() < usize::MAX,
        ensures
            final(self).wf(),
            final(self).head@ == old(self).head@,
            final(self).main@ == old(self).main@.push(element),
            final(self).all() == old(self).all().push(element),
            final(self).state == SortState::Changed,
    {
        self.main.push(element);
        self.set_changed();
        assert(self.all() =~= old(self).all().push(element));
    }

    /// Fold the front part into the main part as its first elements, in the
    /// order they are seen; the sequence of elements stays as it is.
    pub(crate) fn compact(&mut self)
        requires
            old(self).wf(),
        ensures
            final(self).wf(),
            final(self).head@ == Seq::<T>::empty(),
            final(self).main@ == old(self).all(),
            final(self).all() == old(self).all(),
            final(self).state == old(self).state,
    {
        if self.head.len() == 0 {
            assert(self.all() =~= self.main@);
            return;
        }
        let mut fresh: Vec<T> = Vec::new();
        while self.head.len() > 0
            invariant
                fresh@ + self.head@.reverse() == old(self).head@.reverse(),
                self.main@ == old(self).main@,
                self.state == old(self).state,
            decreases self.head@.len(),
        {
            let ghost h = self.head@;
            let x = self.head.pop().unwrap();
            proof {
                assert(h.reverse() =~= seq![x] + self.head@.reverse());
                assert(fresh@.push(x) + self.head@.reverse() =~= fresh@ + h.reverse());
            }
            fresh.push(x);
        }
        assert(fresh@ =~= old(self).head@.reverse());
        fresh.append(&mut self.main);
        self.main = fresh;
        assert(self.head@.reverse() =~= Seq::<T>::empty());
        assert(self.all() =~= self.main@);
    }

    /// Put `element` first; a full front part is folded into the main part first.
    pub(crate) fn push_front(&mut self, element: T)
        requires
            old(self).wf(),
            old(self).all().len() < usize::MAX,
        ensures
            final(self).wf(),
            final(self).all() == seq![element] + old(self).all(),
            final(self).head@.len() > 0,
            final(self).state == SortState::Changed,
    {
        if self.head.len() + 1 > HEAD_SIZE {
            self.compact();
        }
        let ghost h = self.head@;
        let ghost a = self.all();
        self.head.push(element);
        assert(self.head@.reverse() =~= seq![element] + h.reverse());
        assert(self.all() =~= seq![element] + a);
        self.set_changed();
    }

    /// Put `element` first and move the element that was first to the end.
    pub(crate) fn push_swap_front(&mut self, element: T)
        requires
            old(self).wf(),
            old(self).all().len() < usize::MAX,
        ensures
            final(self).wf(),
            final(self).all() == if old(self).all().len() == 0 {
                seq![element]
            } else {
                seq![element] + old(self).all().subrange(1, old(self).all().len() as int) + seq![old(self).all()[0]]
            },
            final(self).state == SortState::Changed,
    {
        let ghost a = self.all();
        let ghost n = a.len() as int;
        if self.head.len() > 0 {
            let ghost h = self.head@;
            let f = self.head.pop().unwrap();
            self.head.push(element);
            self.main.push(f);
            proof {
                assert(f == a[0]);
                assert(self.head@ == h.drop_last().push(element));
                assert(self.head@.reverse() =~= seq![element] + h.reverse().subrange(1, h.len() as int));
                assert(self.all() =~= seq![element] + a.subrange(1, n) + seq![a[0]]);
            }
        } else {
            let last: usize = self.main.len();
            self.main.push(element);
            if last > 0 {
                crate::sorting::swap_elements(&mut self.main, 0, last);
            }
            proof {
                assert(a =~= old(self).main@);
                if last > 0 {
                    assert(self.all() =~= seq![element] + a.subrange(1, n) + seq![a[0]]);
                } else {
                    assert(self.all() =~= seq![element]);
                }
            }
        }
        self.set_changed();
    }

    /// Remove and return the last element.
    pub(crate) fn pop(&mut self) -> (r: Option<T>)
        requires
            old(self).wf(),
        ensures
            final(self).wf(),
            final(self).state == old(self).state,
            old(self).all().len() == 0 ==> r == None::<T> && final(self).head@ == old(self).head@
                && final(self).main@ == old(self).main@,
            old(self).all().len() > 0 ==> r == Some(old(self).all().last()) && final(self).all()
                == old(self).all().drop_last(),
            old(self).main@.len() > 0 ==> final(self).head@ == old(self).head@
                && final(self).main@ == old(self).main@.drop_last(),
            old(self).main@.len() == 0 ==> final(self).main@ == old(self).main@,
    {
        if self.main.len() > 0 {
            let r = self.main.pop();
            proof {
                assert(old(self).all().drop_last() =~= self.front() + self.main@);
            }
            r
        } else if self.head.len() == 0 {
            None
        } else {
            let x = self.head.remove(0);
            proof {
                assert(self.head@.reverse() =~= old(self).head@.reverse().drop_last());
                assert(old(self).all() =~= old(self).front());
                assert(self.all() =~= self.front());
            }
            Some(x)
        }
    }

    /// Remove and return the first element.
    pub(crate) fn pop_front(&mut self) -> (r: Option<T>)
        requires
            old(self).wf(),
        ensures
            final(self).wf(),
            final(self).state == old(self).state,
            old(self).all().len() == 0 ==> r == None::<T> && final(self).head@ == old(self).head@
                && final(self).main@ == old(self).main@,
            old(self).all().len() > 0 ==> r == Some(old(self).all()[0]),
            old(self).head@.len() > 0 ==> final(self).front() == old(self).front().drop_first()
                && final(self).main@ == old(self).main@,
            old(self).head@.len() == 0 && old(self).main@.len() > 0 ==> final(self).head@
                == old(self).head@ && final(self).main@ == if old(self).state.known()
                == Sorting::NoOrder {
                old(self).main@.update(0, old(self).main@.last()).drop_last()
            } else {
                old(self).main@.drop_first()
            },
    {
        if self.head.len() > 0 {
            let r = self.head.pop();
            proof {
                assert(self.head@.reverse() =~= old(self).head@.reverse().drop_first());
            }
            r
        } else if self.main.len() == 0 {
            None
        } else if self.state.is_unsorted() {
            let x = self.main.swap_remove(0);
            proof {
                assert(self.main@ =~= old(self).main@.update(0, old(self).main@.last()).drop_last());
            }
            Some(x)
        } else {
            let x = self.main.remove(0);
            proof {
                assert(self.main@ =~= old(self).main@.drop_first());
            }
            Some(x)
        }
    }

    /// Reverse the sequence of elements (the front part is folded into the
    /// main part first) and turn the recorded order around.
    pub(crate) fn reverse(&mut self)
        requires
            old(self).wf(),
        ensures
            final(self).wf(),
            final(self).head@ == Seq::<T>::empty(),
            final(self).all() == old(self).all().reverse(),
            final(self).state == match old(self).state {
                SortState::Asc => SortState::Desc,
                SortState::Desc => SortState::Asc,
                _ => SortState::Changed,
            },
    {
        self.compact();
        crate::sorting::reverse_vec(&mut self.main);
        assert(self.all() =~= self.main@);
        if self.state.is_sorted() {
            self.state.reverse();
        } else {
            self.set_changed();
        }
    }

    /// References to the elements, front part first.
    pub(crate) fn refs(&self) -> (r: Vec<&T>)
        ensures
            r@.len() == self.all().len(),
            forall|i: int| 0 <= i < r@.len() ==> *r@[i] == #[trigger] self.all()[i],
    {
        let mut r: Vec<&T> = Vec::new();
        let h = self.head.len();
        let mut k: usize = h;
        while k > 0
            invariant
                k <= h,
                h == self.head@.len(),
                r@.len() == h - k,
                forall|j: int| 0 <= j < h - k ==> *r@[j] == #[trigger] self.front()[j],
            decreases k,
        {
            k = k - 1;
            r.push(&self.head[k]);
        }
        let n = self.main.len();
        let mut i: usize = 0;
        while i < n
            invariant
                i <= n,
                n == self.main@.len(),
                h == self.head@.len(),
                r@.len() == h + i,
                forall|j: int| 0 <= j < h + i ==> *r@[j] == #[trigger] self.all()[j],
            decreases n - i,
        {
            r.push(&self.main[i]);
            i = i + 1;
        }
        r
    }
}

impl<T: PartialOrd> EnhVecInner<T> {
    /// The recorded state vouches only for an order that the elements are in.
    pub(crate) open spec fn truthful(&self) -> bool {
        &&& self.state.known() == Sorting::Ascending ==> ascending(self.all())
        &&& self.state.known() == Sorting::Descending ==> descending(self.all())
    }
}

/// Inserting `e` at an insertion point of an ascending sequence keeps it ascending.
pub proof fn lemma_insert_ascending<T: Ord>(m: Seq<T>, e: T, idx: int)
    requires
        lawful_order::<T>(),
        ascending(m),
        insertion_point(m, e, idx),
    ensures
        ascending(m.insert(idx, e)),
{
    lemma_order_basics::<T>();
    let s = m.insert(idx, e);
    assert forall|k: int| 0 <= k < idx implies leq(#[trigger] m[k], e) by {
        if m.len() < SORT_SIZE_CUTOFF {
        } else {
            if k < idx - 1 {
                lemma_le_trans(m[k], m[idx - 1], e);
            }
        }
    }
    assert forall|k: int| idx <= k < m.len() implies leq(e, #[trigger] m[k]) by {
        assert(!leq(m[idx], e));
        assert(leq(e, m[idx]));
        if k > idx {
            lemma_le_trans(e, m[idx], m[k]);
        }
    }
    assert forall|i: int, j: int| #![trigger s[i], s[j]] 0 <= i < j < s.len() implies leq(s[i], s[j]) by {
        if j < idx {
            assert(s[i] == m[i] && s[j] == m[j]);
        } else if j == idx {
            assert(s[i] == m[i]);
        } else if i < idx {
            assert(s[i] == m[i] && s[j] == m[j - 1]);
            lemma_le_trans(m[i], e, m[j - 1]);
        } else if i == idx {
            assert(s[j] == m[j - 1]);
        } else {
            assert(s[i] == m[i - 1] && s[j] == m[j - 1]);
        }
    }
}

impl<T: Ord> EnhVecInner<T> {
    /// Sort all elements towards `sorting` (the front part is folded into
    /// the main part first) and record the new state.
    pub(crate) fn sort(&mut self, sorting: &Sorting)
        requires
            old(self).wf(),
            lawful_order::<T>(),
        ensures
            final(self).wf(),
            final(self).head@ == Seq::<T>::empty(),
            arranged(old(self).all(), final(self).all(), old(self).state.known(), *sorting),
            final(self).state == state_after_sort(*sorting),
    {
        self.compact();
        let ghost before = self.main@;
        sort_vec(&mut self.main, &self.state, sorting);
        proof {
            if before.len() > 1 && *sorting != Sorting::NoOrder && self.state.known() == Sorting::NoOrder {
                vstd::seq_lib::to_multiset_len(before);
                vstd::seq_lib::to_multiset_len(self.main@);
            }
            assert(self.all() =~= self.main@);
        }
        self.state = match sorting {
            Sorting::Ascending => SortState::Asc,
            Sorting::Descending => SortState::Desc,
            _ => SortState::Unsorted,
        };
    }

    /// Whether all elements are in ascending order. A recorded ascending
    /// state answers at once, and so does a first element greater than the last.
    pub(crate) fn is_sorted(&self) -> (r: bool)
        requires
            self.wf(),
            self.truthful(),
            lawful_order::<T>(),
        ensures
            r == ascending(self.all()),
    {
        proof {
            lemma_order_basics::<T>();
        }
        let n = self.len();
        if n <= 1 {
            return true;
        }
        if self.state == SortState::Asc {
            return true;
        }
        let first = self.first().unwrap();
        let last = self.last().unwrap();
        if first.gt(&last) {
            proof {
                assert(!leq(self.all()[0], self.all()[n - 1]));
            }
            return false;
        }
        let mut i: usize = 0;
        while i + 1 < n
            invariant
                lawful_order::<T>(),
                self.wf(),
                n == self.all().len(),
                n > 1,
                i + 1 <= n,
                forall|k: int| 0 <= k < i ==> #[trigger] leq(self.all()[k], self.all()[k + 1]),
            decreases n - i,
        {
            proof {
                lemma_order_basics::<T>();
            }
            if !(*self.get(i) <= *self.get(i + 1)) {
                proof {
                    assert(!leq(self.all()[i as int], self.all()[i + 1]));
                }
                return false;
            }
            i = i + 1;
        }
        proof {
            assert(adjacent_ascending(self.all()));
            lemma_adjacent_ascending(self.all());
        }
        true
    }

    /// Insert `element` into ascending data at its place (see
    /// [`insertion_point`]): an element at least the last one is pushed;
    /// otherwise the front part is folded into the main part and the place is
    /// found linearly or by halving.
    pub(crate) fn insert_sorted(&mut self, element: T)
        requires
            old(self).wf(),
            old(self).truthful(),
            lawful_order::<T>(),
            ascending(old(self).all()),
            old(self).all().len() < usize::MAX,
        ensures
            final(self).wf(),
            final(self).truthful(),
            exists|idx: int| insertion_point(old(self).all(), element, idx)
                && final(self).all() == old(self).all().insert(idx, element),
            ascending(final(self).all()),
            final(self).state == if old(self).state == SortState::Asc {
                SortState::Asc
            } else {
                SortState::Changed
            },
    {
        proof {
            lemma_order_basics::<T>();
        }
        let ghost m0 = self.all();
        let n = self.len();
        let at_end = if n == 0 {
            true
        } else {
            element >= *self.last().unwrap()
        };
        if at_end {
            self.main.push(element);
            proof {
                let k = m0.len() as int;
                assert(self.all() =~= m0.insert(k, element));
                if k > 0 {
                    assert(leq(m0[k - 1], element));
                    assert forall|j: int| 0 <= j < k implies leq(#[trigger] m0[j], element) by {
                        if j < k - 1 {
                            lemma_le_trans(m0[j], m0[k - 1], element);
                        }
                    }
                }
                assert(insertion_point(m0, element, k));
                lemma_insert_ascending(m0, element, k);
            }
        } else {
            self.compact();
            let idx: usize = if self.main.len() < SORT_SIZE_CUTOFF {
                first_greater(&self.main, &element)
            } else {
                upper_bound(&self.main, &element)
            };
            self.main.insert(idx, element);
            proof {
                assert(insertion_point(m0, element, idx as int));
                assert(self.all() =~= m0.insert(idx as int, element));
                lemma_insert_ascending(m0, element, idx as int);
            }
        }
        if self.state != SortState::Asc {
            self.set_changed();
        }
    }
}

} // verus!
