//! What holds of the operations of an `EnhVec` together.
use crate::enhvec::{
    insert_result,
    insert_sorted_result,
    pop_front_result,
    pop_result,
    push_front_result,
    push_result,
    push_swap_front_result,
    reverse_result,
    EnhVec,
};
use crate::order::{ascending, exact_eq, lawful_order};
use crate::sets::{count_eq, has_all, has_any, has_eq, subset_of, superset_of};
use crate::sorting::{arranged, lemma_arranged_in_order, lemma_in_order_ordered, lemma_ordered_unique};
use crate::state::Sorting;
use vstd::multiset::Multiset;
use vstd::prelude::*;
use vstd::std_specs::cmp::PartialEqSpec;

verus! {

/// Reversing twice gives back the same elements and the same known order.
pub proof fn law_reverse_twice<T>(a: EnhVec<T>, b: EnhVec<T>, c: EnhVec<T>)
    requires
        reverse_result(a, b),
        reverse_result(b, c),
    ensures
        c@ == a@,
        c.known_order() == a.known_order(),
{
    assert(a@.reverse().reverse() =~= a@);
}

/// `pop` undoes `push`: it returns the pushed element and gives back the elements.
pub proof fn law_pop_undoes_push<T>(a: EnhVec<T>, b: EnhVec<T>, c: EnhVec<T>, e: T, r: Option<T>)
    requires
        push_result(a, b, e),
        pop_result(b, c, r),
    ensures
        r == Some(e),
        c@ == a@,
{
    assert(b@.drop_last() =~= a@);
}

/// `pop_front` undoes `push_front`: it returns the pushed element and gives
/// back the elements.
pub proof fn law_pop_front_undoes_push_front<T>(a: EnhVec<T>, b: EnhVec<T>, c: EnhVec<T>, e: T, r: Option<T>)
    requires
        push_front_result(a, b, e),
        pop_front_result(b, c, r),
    ensures
        r == Some(e),
        c@ == a@,
{
    assert(b@[0] == e);
    assert(b@.drop_first() =~= a@);
}

/// `push` undoes `pop`: on every non-empty `EnhVec`, whatever order it
/// records, `pop` takes off the last element, so pushing it back gives
/// the elements back.
pub proof fn law_push_undoes_pop<T>(a: EnhVec<T>, b: EnhVec<T>, c: EnhVec<T>, r: Option<T>)
    requires
        a@.len() > 0,
        pop_result(a, b, r),
        push_result(b, c, r->0),
    ensures
        r == Some(a@.last()),
        c@ == a@,
        b@.len() + 1 == a@.len(),
{
    assert(a@.drop_last().push(a@.last()) =~= a@);
}

/// `pop_front` returns the first element and removes exactly one element
/// equal to it, whatever order is recorded.
pub proof fn law_pop_front_takes_first<T>(a: EnhVec<T>, b: EnhVec<T>, r: Option<T>)
    requires
        a@.len() > 0,
        pop_front_result(a, b, r),
    ensures
        r == Some(a@[0]),
        b@.len() + 1 == a@.len(),
        b@.to_multiset().insert(a@[0]) == a@.to_multiset(),
{
    broadcast use vstd::seq_lib::group_to_multiset_ensures;

    let o = a@;
    if a.front().len() == 0 && a.known_order() == Sorting::NoOrder {
        let n = o.len() as int;
        if n > 1 {
            let t = o.update(0, o.last());
            assert(o =~= t.update(0, o[0]));
            assert(t.drop_last().push(t.last()) =~= t);
            assert(t.to_multiset() == t.drop_last().to_multiset().insert(o.last()));
            crate::sorting::lemma_swap_multiset(o, 0, n - 1);
            assert(o.update(0, o[n - 1]).update(n - 1, o[0]) =~= t.drop_last().push(o[0]));
            assert(t.drop_last().push(o[0]).to_multiset() == t.drop_last().to_multiset().insert(o[0]));
        } else {
            assert(b@ =~= Seq::<T>::empty());
            assert(o =~= seq![o[0]]);
            assert(Seq::<T>::empty().push(o[0]) =~= o);
        }
    } else {
        assert(o.drop_first().insert(0, o[0]) =~= o);
        vstd::seq_lib::to_multiset_insert(o.drop_first(), 0, o[0]);
    }
}

/// `push_front` undoes `pop_front` where `pop_front` keeps the order: when
/// the front part holds elements or an order is recorded.
pub proof fn law_push_front_undoes_pop_front<T>(a: EnhVec<T>, b: EnhVec<T>, c: EnhVec<T>, r: Option<T>)
    requires
        a@.len() > 0,
        a.front().len() > 0 || a.known_order() != Sorting::NoOrder,
        pop_front_result(a, b, r),
        push_front_result(b, c, r->0),
    ensures
        c@ == a@,
{
    assert(seq![a@[0]] + a@.drop_first() =~= a@);
}

/// `insert(idx, e)` puts `e` at position `idx`: the elements before it stay
/// where they were, the ones from `idx` on move one place back, and nothing
/// else changes.
pub proof fn law_insert_places<T>(a: EnhVec<T>, b: EnhVec<T>, idx: int, e: T)
    requires
        0 <= idx <= a@.len(),
        insert_result(a, b, idx, e),
    ensures
        b@.len() == a@.len() + 1,
        b@[idx] == e,
        forall|k: int| 0 <= k < idx ==> b@[k] == a@[k],
        forall|k: int| idx <= k < a@.len() ==> b@[k + 1] == a@[k],
{
}

/// `insert_sorted` always adds exactly the element: the elements after it
/// are the old ones and the new one, whatever order is recorded; on data
/// that is not ascending the element goes to the end.
pub proof fn law_insert_sorted_adds_element<T: Ord>(a: EnhVec<T>, b: EnhVec<T>, e: T)
    requires
        insert_sorted_result(a, b, e),
    ensures
        b@.to_multiset() == a@.to_multiset().insert(e),
        b@.len() == a@.len() + 1,
        !ascending(a@) ==> b@.drop_last() == a@ && b@.last() == e,
{
    broadcast use vstd::seq_lib::group_to_multiset_ensures;

    if ascending(a@) {
        let idx = choose|idx: int| crate::inner::insertion_point(a@, e, idx) && b@ == a@.insert(idx, e);
        vstd::seq_lib::to_multiset_insert(a@, idx, e);
    } else {
        assert(b@.drop_last() =~= a@);
    }
}

/// An element is in `seq![y] + s` exactly when it equals `y` or is in `s`,
/// and in no empty sequence.
pub proof fn law_has_eq_cons<T: PartialEq>(s: Seq<T>, y: T, x: T)
    ensures
        has_eq(seq![y] + s, x) == (y.eq_spec(&x) || has_eq(s, x)),
        !has_eq(Seq::<T>::empty(), x),
{
    let t = seq![y] + s;
    if has_eq(t, x) {
        let i = choose|i: int| 0 <= i < t.len() && (#[trigger] t[i]).eq_spec(&x);
        if i > 0 {
            assert(s[i - 1] == t[i]);
        }
    }
    if has_eq(s, x) {
        let i = choose|i: int| 0 <= i < s.len() && (#[trigger] s[i]).eq_spec(&x);
        assert(t[i + 1] == s[i]);
    }
    if y.eq_spec(&x) {
        assert(t[0] == y);
    }
}

/// `s` has all of `seq![x] + o` exactly when it has `x` and all of `o`; it
/// has all of an empty sequence.
pub proof fn law_has_all_cons<T: PartialEq>(s: Seq<T>, x: T, o: Seq<T>)
    ensures
        has_all(s, seq![x] + o) == (has_eq(s, x) && has_all(s, o)),
        has_all(s, Seq::<T>::empty()),
{
    let t = seq![x] + o;
    if has_all(s, t) {
        assert(t[0] == x);
        assert(has_eq(s, t[0]));
        assert forall|j: int| 0 <= j < o.len() implies has_eq(s, #[trigger] o[j]) by {
            assert(t[j + 1] == o[j]);
            assert(has_eq(s, t[j + 1]));
        }
    }
    if has_eq(s, x) && has_all(s, o) {
        assert forall|j: int| 0 <= j < t.len() implies has_eq(s, #[trigger] t[j]) by {
            if j > 0 {
                assert(t[j] == o[j - 1]);
            }
        }
    }
}

/// `s` has any of `seq![x] + o` exactly when it has `x` or any of `o`; it
/// has none of an empty sequence.
pub proof fn law_has_any_cons<T: PartialEq>(s: Seq<T>, x: T, o: Seq<T>)
    ensures
        has_any(s, seq![x] + o) == (has_eq(s, x) || has_any(s, o)),
        !has_any(s, Seq::<T>::empty()),
{
    let t = seq![x] + o;
    if has_any(s, t) {
        let j = choose|j: int| 0 <= j < t.len() && has_eq(s, #[trigger] t[j]);
        if j > 0 {
            assert(t[j] == o[j - 1]);
        }
    }
    if has_any(s, o) {
        let j = choose|j: int| 0 <= j < o.len() && has_eq(s, #[trigger] o[j]);
        assert(t[j + 1] == o[j]);
    }
    if has_eq(s, x) {
        assert(t[0] == x);
    }
}

/// Counting from the front: the count in `seq![x] + s` is one more than in
/// `s` exactly when `x` is equal to the value; the count in an empty
/// sequence is zero.
pub proof fn law_count_cons<T: PartialEq>(s: Seq<T>, x: T, v: T)
    ensures
        count_eq(seq![x] + s, v) == count_eq(s, v) + if x.eq_spec(&v) {
            1int
        } else {
            0int
        },
        count_eq(Seq::<T>::empty(), v) == 0,
    decreases s.len(),
{
    let t = seq![x] + s;
    if s.len() > 0 {
        law_count_cons(s.drop_last(), x, v);
        assert(t.drop_last() =~= seq![x] + s.drop_last());
        assert(t.last() == s.last());
    } else {
        assert(t.drop_last() =~= Seq::<T>::empty());
        assert(t.last() == x);
        assert(count_eq(t.drop_last(), v) == 0);
    }
}

/// After `push_swap_front`, the element comes first, and the elements are
/// the old ones and it.
pub proof fn law_push_swap_front_first<T>(a: EnhVec<T>, b: EnhVec<T>, e: T)
    requires
        push_swap_front_result(a, b, e),
    ensures
        b@[0] == e,
        b@.to_multiset() == a@.push(e).to_multiset(),
{
    broadcast use vstd::seq_lib::group_to_multiset_ensures;

    let n = a@.len() as int;
    if n > 0 {
        let s = a@.push(e);
        crate::sorting::lemma_swap_multiset(s, 0, n);
        assert(b@ =~= s.update(0, s[n]).update(n, s[0]));
    } else {
        assert(b@ =~= a@.push(e));
    }
}

/// Inserting into an `EnhVec` whose elements are in ascending order keeps
/// them in ascending order and adds the element.
pub proof fn law_insert_sorted_keeps_order<T: Ord>(a: EnhVec<T>, b: EnhVec<T>, e: T)
    requires
        ascending(a@),
        insert_sorted_result(a, b, e),
    ensures
        ascending(b@),
        b@.to_multiset() == a@.to_multiset().insert(e),
{
    broadcast use vstd::seq_lib::group_to_multiset_ensures;

    let idx = choose|idx: int| crate::inner::insertion_point(a@, e, idx) && b@ == a@.insert(idx, e);
    vstd::seq_lib::to_multiset_insert(a@, idx, e);
}

/// The elements that hashing feeds, the ascending arrangement that
/// `as_sorted_asc` gives, do not depend on the order in which the elements
/// were added: two `EnhVec`s with the same elements give the same one, when
/// equality is exact.
pub proof fn law_hash_order_independent<T: Ord>(a: EnhVec<T>, b: EnhVec<T>, ra: Seq<T>, rb: Seq<T>)
    requires
        lawful_order::<T>(),
        exact_eq::<T>(),
        a.inv(),
        b.inv(),
        a@.to_multiset() == b@.to_multiset(),
        arranged(a@, ra, a.known_order(), Sorting::Ascending),
        arranged(b@, rb, b.known_order(), Sorting::Ascending),
    ensures
        ra == rb,
{
    lemma_arranged_in_order(a@, ra, a.known_order(), Sorting::Ascending);
    lemma_arranged_in_order(b@, rb, b.known_order(), Sorting::Ascending);
    lemma_in_order_ordered(ra, Sorting::Ascending);
    lemma_in_order_ordered(rb, Sorting::Ascending);
    lemma_ordered_unique(ra, rb, false);
}

/// What hashing may feed the hasher, an ascending sequence of exactly the
/// elements, is the same for two `EnhVec`s with the same elements, whatever
/// order they are stored in or were added in, when equality is exact.
pub proof fn law_hash_feed_order_independent<T: Ord>(a: EnhVec<T>, b: EnhVec<T>, ra: Seq<T>, rb: Seq<T>)
    requires
        lawful_order::<T>(),
        exact_eq::<T>(),
        a@.to_multiset() == b@.to_multiset(),
        ascending(ra),
        ra.to_multiset() == a@.to_multiset(),
        ascending(rb),
        rb.to_multiset() == b@.to_multiset(),
    ensures
        ra == rb,
{
    lemma_in_order_ordered(ra, Sorting::Ascending);
    lemma_in_order_ordered(rb, Sorting::Ascending);
    lemma_ordered_unique(ra, rb, false);
}

/// `a.is_subset(b)` answers what `b.is_superset(a)` answers.
pub proof fn law_subset_superset_dual<T: PartialEq>(a: EnhVec<T>, b: EnhVec<T>)
    ensures
        subset_of(a@, b@) == superset_of(b@, a@),
{
}

/// Being disjoint is symmetric.
pub proof fn law_disjoint_symmetric<T: PartialEq>(a: EnhVec<T>, b: EnhVec<T>)
    requires
        vstd::laws_eq::obeys_eq::<T>(),
    ensures
        has_any(a@, b@) == has_any(b@, a@),
{
    reveal(vstd::laws_eq::obeys_eq_spec_properties);
    if has_any(a@, b@) {
        let j = choose|j: int| 0 <= j < b@.len() && has_eq(a@, #[trigger] b@[j]);
        let i = choose|i: int| 0 <= i < a@.len() && (#[trigger] a@[i]).eq_spec(&b@[j]);
        assert(b@[j].eq_spec(&a@[i]));
        assert(has_eq(b@, a@[i]));
    }
    if has_any(b@, a@) {
        let j = choose|j: int| 0 <= j < a@.len() && has_eq(b@, #[trigger] a@[j]);
        let i = choose|i: int| 0 <= i < b@.len() && (#[trigger] b@[i]).eq_spec(&a@[j]);
        assert(a@[j].eq_spec(&b@[i]));
        assert(has_eq(a@, b@[i]));
    }
}

/// No `EnhVec` is a proper subset and a proper superset of another at once.
pub proof fn law_proper_both_never<T: PartialEq>(a: EnhVec<T>, b: EnhVec<T>)
    ensures
        !((subset_of(a@, b@) && a@.len() < b@.len()) && (superset_of(a@, b@) && a@.len() > b@.len())),
{
}

/// With exact equality, every `EnhVec` contains only its own values, so it
/// `contains_only` itself.
pub proof fn law_contains_only_itself<T: PartialEq>(a: EnhVec<T>)
    requires
        exact_eq::<T>(),
    ensures
        subset_of(a@, a@),
{
    reveal(vstd::laws_eq::obeys_concrete_eq);
    assert forall|j: int| 0 <= j < a@.len() implies has_eq(a@, #[trigger] a@[j]) by {
        assert(a@[j].eq_spec(&a@[j]));
    }
}

/// With exact equality, `count` is the multiplicity of the value.
pub proof fn law_count_is_multiplicity<T: PartialEq>(s: Seq<T>, v: T)
    requires
        exact_eq::<T>(),
    ensures
        count_eq(s, v) == s.to_multiset().count(v),
    decreases s.len(),
{
    broadcast use vstd::seq_lib::group_to_multiset_ensures;
    broadcast use vstd::multiset::group_multiset_axioms;

    reveal(vstd::laws_eq::obeys_concrete_eq);
    if s.len() == 0 {
        assert(s.to_multiset() =~= Multiset::<T>::empty());
    } else {
        let t = s.drop_last();
        law_count_is_multiplicity(t, v);
        assert(s =~= t.push(s.last()));
        assert(s.to_multiset() =~= t.to_multiset().insert(s.last()));
    }
}

} // verus!
