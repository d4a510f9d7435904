//! Sorting, reversing and searching a `Vec` in place.
use crate::order::{ascending, descending, exact_eq, lawful_order, lemma_le_antisym, lemma_le_trans, lemma_order_basics, leq};
use crate::state::{SortState, Sorting};
use vstd::multiset::Multiset;
use vstd::prelude::*;

verus! {

/// `a` may stand before `b` in the direction given: ascending when
/// `desc` is false, descending when it is true.
pub open spec fn precedes<T: PartialOrd>(a: T, b: T, desc: bool) -> bool {
    if desc {
        leq(b, a)
    } else {
        leq(a, b)
    }
}

/// `s` is ordered in the direction given by `desc`.
pub open spec fn ordered<T: PartialOrd>(s: Seq<T>, desc: bool) -> bool {
    forall|i: int, j: int| #![trigger s[i], s[j]] 0 <= i < j < s.len() ==> precedes(s[i], s[j], desc)
}

/// `s` is in the order that `sorting` asks for (any order for `NoOrder`).
pub open spec fn in_order<T: PartialOrd>(s: Seq<T>, sorting: Sorting) -> bool {
    match sorting {
        Sorting::Ascending => ascending(s),
        Sorting::Descending => descending(s),
        Sorting::NoOrder => true,
    }
}

/// What sorting `old` towards `desired` yields, given the order `known` that
/// its recorded state vouches for: nothing changes for a short sequence, for
/// no desired order, or when the known order is the desired one; a sequence
/// of no known order is sorted (a reordering of it that is in the desired
/// order); a sequence of the other known order is reversed.
pub open spec fn arranged<T: PartialOrd>(old: Seq<T>, new: Seq<T>, known: Sorting, desired: Sorting) -> bool {
    if old.len() <= 1 || desired == Sorting::NoOrder || known == desired {
        new == old
    } else if known == Sorting::NoOrder {
        &&& in_order(new, desired)
        &&& new.to_multiset() == old.to_multiset()
    } else {
        new == old.reverse()
    }
}

/// Arranging towards an order, with a known order that is true of `old`,
/// yields the elements of `old` in the order asked for.
pub proof fn lemma_arranged_in_order<T: PartialOrd>(old: Seq<T>, new: Seq<T>, known: Sorting, desired: Sorting)
    requires
        known == Sorting::Ascending ==> ascending(old),
        known == Sorting::Descending ==> descending(old),
        desired != Sorting::NoOrder,
        arranged(old, new, known, desired),
    ensures
        in_order(new, desired),
        new.to_multiset() == old.to_multiset(),
{
    if old.len() <= 1 {
        assert(new == old);
        if desired == Sorting::Ascending {
            assert(ascending(new));
        } else {
            assert(descending(new));
        }
    } else if known == desired {
    } else if known == Sorting::NoOrder {
    } else {
        assert(new == old.reverse());
        crate::order::lemma_reverse_order(old);
        old.lemma_reverse_to_multiset();
    }
}

/// The sequence that sorting `s` towards `desired` yields; see [`arranged`].
/// Where several qualify (elements equal in the order but not the same), one of them.
pub open spec fn arrangement<T: PartialOrd>(s: Seq<T>, known: Sorting, desired: Sorting) -> Seq<T> {
    choose|t: Seq<T>| arranged(s, t, known, desired)
}

/// Two orderings of the same elements in the same direction are the same
/// sequence, when equality is exact.
pub proof fn lemma_ordered_unique<T: Ord>(a: Seq<T>, b: Seq<T>, desc: bool)
    requires
        lawful_order::<T>(),
        exact_eq::<T>(),
        ordered(a, desc),
        ordered(b, desc),
        a.to_multiset() == b.to_multiset(),
    ensures
        a == b,
    decreases a.len(),
{
    broadcast use vstd::seq_lib::group_to_multiset_ensures;
    broadcast use vstd::multiset::group_multiset_axioms;

    assert(a.to_multiset().len() == a.len());
    assert(b.to_multiset().len() == b.len());
    if a.len() == 0 {
        assert(a =~= b);
    } else {
        let x = a[0];
        let y = b[0];
        assert(b.to_multiset().count(y) > 0);
        assert(a.contains(y));
        let k = choose|k: int| 0 <= k < a.len() && a[k] == y;
        assert(a.to_multiset().count(x) > 0);
        assert(b.contains(x));
        let m = choose|m: int| 0 <= m < b.len() && b[m] == x;
        if x != y {
            assert(k > 0 && m > 0);
            assert(precedes(a[0], a[k], desc));
            assert(precedes(b[0], b[m], desc));
            if desc {
                lemma_le_antisym(x, y);
            } else {
                lemma_le_antisym(x, y);
            }
        }
        let a1 = a.drop_first();
        let b1 = b.drop_first();
        assert(a.remove(0) =~= a1);
        assert(b.remove(0) =~= b1);
        assert(a1.to_multiset() == a.to_multiset().remove(x));
        assert(b1.to_multiset() == b.to_multiset().remove(y));
        assert forall|i: int, j: int| #![trigger a1[i], a1[j]] 0 <= i < j < a1.len() implies precedes(a1[i], a1[j], desc) by {
            assert(precedes(a[i + 1], a[j + 1], desc));
        }
        assert forall|i: int, j: int| #![trigger b1[i], b1[j]] 0 <= i < j < b1.len() implies precedes(b1[i], b1[j], desc) by {
            assert(precedes(b[i + 1], b[j + 1], desc));
        }
        lemma_ordered_unique(a1, b1, desc);
        assert(x == y);
        assert forall|i: int| 0 <= i < a.len() implies #[trigger] a[i] == b[i] by {
            if i > 0 {
                assert(a[i] == a1[i - 1] && b[i] == b1[i - 1]);
            }
        }
        assert(a =~= b);
    }
}

/// `in_order` towards a direction is `ordered` in that direction.
pub proof fn lemma_in_order_ordered<T: PartialOrd>(s: Seq<T>, desired: Sorting)
    requires
        desired != Sorting::NoOrder,
        in_order(s, desired),
    ensures
        ordered(s, desired == Sorting::Descending),
{
    let desc = desired == Sorting::Descending;
    assert forall|i: int, j: int| #![trigger s[i], s[j]] 0 <= i < j < s.len() implies precedes(s[i], s[j], desc) by {
        if desc {
            assert(leq(s[j], s[i]));
        } else {
            assert(leq(s[i], s[j]));
        }
    }
}

/// Put `x` into the ascending `r` at its place.
proof fn insert_in_order<T: Ord>(r: Seq<T>, x: T) -> (t: Seq<T>)
    requires
        lawful_order::<T>(),
        ascending(r),
    ensures
        ascending(t),
        t.to_multiset() == r.to_multiset().insert(x),
    decreases r.len(),
{
    broadcast use vstd::seq_lib::group_to_multiset_ensures;
    broadcast use vstd::multiset::group_multiset_axioms;

    lemma_order_basics::<T>();
    if r.len() == 0 {
        let t = seq![x];
        assert(r =~= Seq::<T>::empty());
        assert(t =~= r.push(x));
        t
    } else if leq(r.last(), x) {
        let t = r.push(x);
        assert forall|i: int, j: int| #![trigger t[i], t[j]] 0 <= i < j < t.len() implies leq(t[i], t[j]) by {
            if j == r.len() {
                if i < r.len() - 1 {
                    lemma_le_trans(r[i], r.last(), x);
                }
            } else {
                assert(leq(r[i], r[j]));
            }
        }
        t
    } else {
        let r1 = r.drop_last();
        let y = r.last();
        assert forall|i: int, j: int| #![trigger r1[i], r1[j]] 0 <= i < j < r1.len() implies leq(r1[i], r1[j]) by {
            assert(leq(r[i], r[j]));
        }
        let t1 = insert_in_order(r1, x);
        let t = t1.push(y);
        assert(r =~= r1.push(y));
        assert(leq(x, y));
        assert forall|k: int| 0 <= k < t1.len() implies leq(#[trigger] t1[k], y) by {
            assert(t1.to_multiset().count(t1[k]) > 0);
            if t1[k] != x {
                assert(r1.to_multiset().count(t1[k]) > 0);
                assert(r1.contains(t1[k]));
                let p = choose|p: int| 0 <= p < r1.len() && r1[p] == t1[k];
                assert(leq(r[p], r[r.len() - 1]));
            }
        }
        assert forall|i: int, j: int| #![trigger t[i], t[j]] 0 <= i < j < t.len() implies leq(t[i], t[j]) by {
            if j == t1.len() {
                assert(leq(t1[i], y));
            } else {
                assert(leq(t1[i], t1[j]));
            }
        }
        assert(t.to_multiset() =~= t1.to_multiset().insert(y));
        assert(r.to_multiset() =~= r1.to_multiset().insert(y));
        t
    }
}

/// An ascending sequence with the elements of `s`.
pub proof fn sorted_copy<T: Ord>(s: Seq<T>) -> (t: Seq<T>)
    requires
        lawful_order::<T>(),
    ensures
        ascending(t),
        t.to_multiset() == s.to_multiset(),
    decreases s.len(),
{
    broadcast use vstd::seq_lib::group_to_multiset_ensures;

    if s.len() == 0 {
        s
    } else {
        let r = sorted_copy(s.drop_last());
        assert(s =~= s.drop_last().push(s.last()));
        insert_in_order(r, s.last())
    }
}

/// When equality is exact, there is one arrangement: the one `arrangement` names.
pub proof fn lemma_arranged_unique<T: Ord>(s: Seq<T>, t: Seq<T>, known: Sorting, desired: Sorting)
    requires
        lawful_order::<T>(),
        exact_eq::<T>(),
        arranged(s, t, known, desired),
    ensures
        t == arrangement(s, known, desired),
{
    let c = arrangement(s, known, desired);
    assert(arranged(s, c, known, desired));
    if s.len() <= 1 || desired == Sorting::NoOrder || known == desired {
    } else if known == Sorting::NoOrder {
        lemma_in_order_ordered(t, desired);
        lemma_in_order_ordered(c, desired);
        lemma_ordered_unique(t, c, desired == Sorting::Descending);
    } else {
    }
}

/// Two sequences of references with the same elements point to the same elements.
pub proof fn lemma_unref_multiset<T>(a: Seq<&T>, b: Seq<&T>)
    requires
        a.to_multiset() == b.to_multiset(),
    ensures
        a.unref().to_multiset() == b.unref().to_multiset(),
    decreases a.len(),
{
    broadcast use vstd::seq_lib::group_to_multiset_ensures;
    broadcast use vstd::multiset::group_multiset_axioms;

    assert(a.to_multiset().len() == a.len());
    assert(b.to_multiset().len() == b.len());
    if a.len() == 0 {
        assert(b.len() == 0);
        assert(a.unref() =~= Seq::<T>::empty());
        assert(b.unref() =~= Seq::<T>::empty());
    } else {
        let x = a.last();
        let a1 = a.drop_last();
        assert(a =~= a1.push(x));
        assert(a.to_multiset().count(x) > 0);
        assert(b.to_multiset().count(x) > 0);
        assert(b.contains(x));
        let k = choose|k: int| 0 <= k < b.len() && b[k] == x;
        assert(0 <= k < b.len());
        let b1 = b.remove(k);
        assert(a1.to_multiset() =~= a.to_multiset().remove(x));
        assert(b1.to_multiset() =~= b.to_multiset().remove(x));
        lemma_unref_multiset(a1, b1);
        assert(a.unref() =~= a1.unref().push(*x));
        assert(b.unref() =~= b1.unref().insert(k, *x));
        assert(a.unref().to_multiset() =~= a1.unref().to_multiset().insert(*x));
        assert(b.unref().to_multiset() =~= b1.unref().to_multiset().insert(*x));
    }
}

/// What holds of a sequence of references that is arranged holds of the values they point to.
pub proof fn lemma_arranged_unref<T: PartialOrd>(a: Seq<&T>, b: Seq<&T>, known: Sorting, desired: Sorting)
    requires
        arranged(a, b, known, desired),
    ensures
        arranged(a.unref(), b.unref(), known, desired),
{
    if a.len() <= 1 || desired == Sorting::NoOrder || known == desired {
    } else if known == Sorting::NoOrder {
        lemma_unref_multiset(a, b);
        let u = b.unref();
        if desired == Sorting::Ascending {
            assert forall|i: int, j: int| #![trigger u[i], u[j]] 0 <= i < j < u.len() implies leq(u[i], u[j]) by {
                assert(leq(b[i], b[j]));
            }
        } else {
            assert forall|i: int, j: int| #![trigger u[i], u[j]] 0 <= i < j < u.len() implies leq(u[j], u[i]) by {
                assert(leq(b[j], b[i]));
            }
        }
    } else {
        assert(b.unref() =~= a.unref().reverse());
    }
}

/// Exchanging two elements keeps the multiset of elements.
pub proof fn lemma_swap_multiset<T>(s: Seq<T>, i: int, j: int)
    requires
        0 <= i < s.len(),
        0 <= j < s.len(),
    ensures
        s.update(i, s[j]).update(j, s[i]).to_multiset() =~= s.to_multiset(),
{
    broadcast use vstd::seq_lib::group_to_multiset_ensures;
    broadcast use vstd::multiset::group_multiset_axioms;

    let s1 = s.update(i, s[j]);
    assert(s1.to_multiset() == s.to_multiset().insert(s[j]).remove(s[i]));
    assert(s1[j] == if i == j { s[j] } else { s[j] });
    assert(s1.update(j, s[i]).to_multiset() == s1.to_multiset().insert(s[i]).remove(s1[j]));
    assert(s.to_multiset().count(s[i]) > 0);
}

/// Exchange the elements at `i` and `j`.
///
/// Calls `<[T]>::swap`, which std documents as exchanging the two elements
/// and panicking when either index is out of bounds; the contract claims
/// exactly that exchange.
#[verifier::external_body]
pub(crate) fn swap_elements<T>(v: &mut Vec<T>, i: usize, j: usize)
    requires
        i < old(v)@.len(),
        j < old(v)@.len(),
    ensures
        final(v)@ == old(v)@.update(i as int, old(v)@[j as int]).update(j as int, old(v)@[i as int]),
{
    v.swap(i, j);
}

/// Reverse the elements of `v` in place.
#[verifier::spinoff_prover]
pub fn reverse_vec<T>(v: &mut Vec<T>)
    ensures
        final(v)@ == old(v)@.reverse(),
{
    let ghost o = v@;
    let n = v.len();
    let half = n / 2;
    let mut i: usize = 0;
    while i < half
        invariant
            half == n / 2,
            i <= half,
            v@.len() == n,
            n == o.len(),
            o == old(v)@,
            forall|k: int| 0 <= k < i ==> #[trigger] v@[k] == o[n - 1 - k],
            forall|j: int| n - i <= j < n ==> #[trigger] v@[j] == o[n - 1 - j],
            forall|k: int| i <= k < n - i ==> #[trigger] v@[k] == o[k],
        decreases half - i,
    {
        let ghost pre = v@;
        let j = n - 1 - i;
        swap_elements(v, i, j);
        assert(v@ == pre.update(i as int, pre[j as int]).update(j as int, pre[i as int]));
        assert(pre[i as int] == o[i as int] && pre[j as int] == o[j as int]);
        i = i + 1;
    }
    assert forall|k: int| 0 <= k < n implies #[trigger] v@[k] == o.reverse()[k] by {
        if k < half {
        } else if k >= n - half {
        } else {
            assert(k == n - 1 - k);
        }
    }
    assert(v@ =~= o.reverse());
}

/// Whether `x` should come before `y` in the direction `desc`; on a tie the
/// first one does, which keeps the sort stable.
fn goes_first<T: Ord>(x: &T, y: &T, desc: bool) -> (r: bool)
    ensures
        lawful_order::<T>() ==> (r ==> precedes(*x, *y, desc)) && (!r ==> precedes(*y, *x, desc)),
{
    proof {
        if lawful_order::<T>() {
            lemma_order_basics::<T>();
        }
    }
    if desc {
        !(*x < *y)
    } else {
        !(*y < *x)
    }
}

/// Merge two sequences that are ordered in the direction `desc` into one
/// ordered sequence with the elements of both.
fn merge<T: Ord>(a: Vec<T>, b: Vec<T>, desc: bool) -> (r: Vec<T>)
    requires
        lawful_order::<T>() ==> ordered(a@, desc),
        lawful_order::<T>() ==> ordered(b@, desc),
        a@.len() + b@.len() <= usize::MAX,
    ensures
        lawful_order::<T>() ==> ordered(r@, desc),
        r@.to_multiset() == a@.to_multiset().add(b@.to_multiset()),
        r@.len() == a@.len() + b@.len(),
{
    broadcast use vstd::seq_lib::group_to_multiset_ensures, vstd::multiset::group_multiset_axioms;

    let ghost sa = a@;
    let ghost sb = b@;
    let mut ar = a;
    let mut br = b;
    reverse_vec(&mut ar);
    reverse_vec(&mut br);
    let ghost la = sa.len() as int;
    let ghost lb = sb.len() as int;
    let ghost mut ia: int = 0;
    let ghost mut ib: int = 0;
    proof {
        assert(ar@ =~= sa.subrange(0, la).reverse());
        assert(br@ =~= sb.subrange(0, lb).reverse());
        sa.lemma_reverse_to_multiset();
        sb.lemma_reverse_to_multiset();
    }
    let mut out: Vec<T> = Vec::new();
    proof {
        assert(sa.subrange(0, la) =~= sa);
        assert(sb.subrange(0, lb) =~= sb);
        assert(out@.to_multiset() =~= Multiset::<T>::empty());
        assert(Multiset::<T>::empty().add(sa.to_multiset()).add(sb.to_multiset()) =~= sa.to_multiset().add(
            sb.to_multiset(),
        ));
    }
    while ar.len() > 0 || br.len() > 0
        invariant
            0 <= ia <= la,
            0 <= ib <= lb,
            la == sa.len(),
            lb == sb.len(),
            la + lb <= usize::MAX,
            ar@ == sa.subrange(ia, la).reverse(),
            br@ == sb.subrange(ib, lb).reverse(),
            out@.len() == ia + ib,
            out@.to_multiset().add(sa.subrange(ia, la).to_multiset()).add(sb.subrange(ib, lb).to_multiset())
                == sa.to_multiset().add(sb.to_multiset()),
            lawful_order::<T>() ==> ordered(sa, desc),
            lawful_order::<T>() ==> ordered(sb, desc),
            lawful_order::<T>() ==> ordered(out@, desc),
            lawful_order::<T>() && out@.len() > 0 ==> forall|k: int|
                ia <= k < la ==> precedes(out@.last(), #[trigger] sa[k], desc),
            lawful_order::<T>() && out@.len() > 0 ==> forall|k: int|
                ib <= k < lb ==> precedes(out@.last(), #[trigger] sb[k], desc),
        decreases ar@.len() + br@.len(),
    {
        let take_a = if ar.len() == 0 {
            false
        } else if br.len() == 0 {
            true
        } else {
            goes_first(&ar[ar.len() - 1], &br[br.len() - 1], desc)
        };
        let ghost before = out@;
        if take_a {
            proof {
                assert(ar@.last() == sa[ia]);
                if br@.len() > 0 {
                    assert(br@.last() == sb[ib]);
                }
            }
            let x = ar.pop().unwrap();
            proof {
                assert(ar@ =~= sa.subrange(ia + 1, la).reverse());
                assert(sa.subrange(ia, la) =~= sa.subrange(ia + 1, la).insert(0, x));
                vstd::seq_lib::to_multiset_insert(sa.subrange(ia + 1, la), 0, x);
                if lawful_order::<T>() {
                    lemma_order_basics::<T>();
                    assert forall|k: int| ia + 1 <= k < la implies precedes(x, #[trigger] sa[k], desc) by {
                        assert(precedes(sa[ia], sa[k], desc));
                    }
                    assert forall|k: int| ib <= k < lb implies precedes(x, #[trigger] sb[k], desc) by {
                        assert(precedes(sb[ib], sb[k], desc));
                        if k > ib {
                            if desc {
                                lemma_le_trans(sb[k], sb[ib], x);
                            } else {
                                lemma_le_trans(x, sb[ib], sb[k]);
                            }
                        }
                    }
                    assert forall|i: int, j: int| #![trigger before.push(x)[i], before.push(x)[j]]
                        0 <= i < j < before.len() + 1 implies precedes(before.push(x)[i], before.push(x)[j], desc) by {
                        if j == before.len() && i < before.len() - 1 {
                            assert(precedes(before[i], before.last(), desc));
                            if desc {
                                lemma_le_trans(x, before.last(), before[i]);
                            } else {
                                lemma_le_trans(before[i], before.last(), x);
                            }
                        } else if j < before.len() {
                            assert(precedes(before[i], before[j], desc));
                        }
                    }
                }
            }
            out.push(x);
            proof {
                let ra = sa.subrange(ia + 1, la).to_multiset();
                let rb = sb.subrange(ib, lb).to_multiset();
                assert(out@ == before.push(x));
                vstd::seq_lib::to_multiset_build(before, x);
                assert(out@.to_multiset().add(ra).add(rb) =~= before.to_multiset().add(ra.insert(x)).add(rb));
                ia = ia + 1;
            }
        } else {
            proof {
                assert(br@.last() == sb[ib]);
                if ar@.len() > 0 {
                    assert(ar@.last() == sa[ia]);
                }
            }
            let y = br.pop().unwrap();
            proof {
                assert(br@ =~= sb.subrange(ib + 1, lb).reverse());
                assert(sb.subrange(ib, lb) =~= sb.subrange(ib + 1, lb).insert(0, y));
                vstd::seq_lib::to_multiset_insert(sb.subrange(ib + 1, lb), 0, y);
                if lawful_order::<T>() {
                    lemma_order_basics::<T>();
                    assert forall|k: int| ib + 1 <= k < lb implies precedes(y, #[trigger] sb[k], desc) by {
                        assert(precedes(sb[ib], sb[k], desc));
                    }
                    assert forall|k: int| ia <= k < la implies precedes(y, #[trigger] sa[k], desc) by {
                        assert(precedes(sa[ia], sa[k], desc));
                        if k > ia {
                            if desc {
                                lemma_le_trans(sa[k], sa[ia], y);
                            } else {
                                lemma_le_trans(y, sa[ia], sa[k]);
                            }
                        }
                    }
                    assert forall|i: int, j: int| #![trigger before.push(y)[i], before.push(y)[j]]
                        0 <= i < j < before.len() + 1 implies precedes(before.push(y)[i], before.push(y)[j], desc) by {
                        if j == before.len() && i < before.len() - 1 {
                            assert(precedes(before[i], before.last(), desc));
                            if desc {
                                lemma_le_trans(y, before.last(), before[i]);
                            } else {
                                lemma_le_trans(before[i], before.last(), y);
                            }
                        } else if j < before.len() {
                            assert(precedes(before[i], before[j], desc));
                        }
                    }
                }
            }
            out.push(y);
            proof {
                let ra = sa.subrange(ia, la).to_multiset();
                let rb = sb.subrange(ib + 1, lb).to_multiset();
                assert(out@ == before.push(y));
                vstd::seq_lib::to_multiset_build(before, y);
                assert(out@.to_multiset().add(ra).add(rb) =~= before.to_multiset().add(ra).add(rb.insert(y)));
                ib = ib + 1;
            }
        }
    }
    proof {
        assert(sa.subrange(ia, la) =~= Seq::<T>::empty());
        assert(sb.subrange(ib, lb) =~= Seq::<T>::empty());
        assert(out@.to_multiset().add(Multiset::<T>::empty()).add(Multiset::<T>::empty()) =~= out@.to_multiset());
    }
    out
}

/// Sort `v` in place by merging sorted halves, ascending or (`desc`)
/// descending, in `O(n log n)` comparisons; elements that are equal in the
/// order keep their relative positions.
pub fn merge_sort<T: Ord>(v: &mut Vec<T>, desc: bool)
    ensures
        lawful_order::<T>() ==> ordered(final(v)@, desc),
        final(v)@.to_multiset() == old(v)@.to_multiset(),
        final(v)@.len() == old(v)@.len(),
    decreases old(v)@.len(),
{
    broadcast use vstd::seq_lib::group_to_multiset_ensures;

    let n = v.len();
    if n <= 1 {
        proof {
            if n == 1 {
                assert(ordered(v@, desc));
            }
        }
        return;
    }
    let ghost whole = v@;
    let mut right = v.split_off(n / 2);
    proof {
        assert(whole =~= v@ + right@);
        vstd::seq_lib::lemma_multiset_commutative(v@, right@);
    }
    merge_sort(v, desc);
    merge_sort(&mut right, desc);
    let mut left: Vec<T> = Vec::new();
    std::mem::swap(&mut left, v);
    *v = merge(left, right, desc);
}

/// Sort `v` in place towards `desired`, trusting the order that `state`
/// vouches for: a vector that `state` already records in the desired order
/// is left alone, and one recorded in the other order is only reversed.
pub fn sort_vec<T: Ord>(v: &mut Vec<T>, state: &SortState, desired: &Sorting)
    ensures
        lawful_order::<T>() ==> arranged(old(v)@, final(v)@, state.known(), *desired),
{
    if v.len() <= 1 || *desired == Sorting::NoOrder {
        return;
    } else if *state == SortState::Asc && *desired == Sorting::Ascending {
        return;
    } else if *state == SortState::Desc && *desired == Sorting::Descending {
        return;
    }
    if state.is_unsorted() {
        let desc = *desired == Sorting::Descending;
        merge_sort(v, desc);
        proof {
            if lawful_order::<T>() {
            let s = v@;
            if desc {
                assert forall|i: int, j: int| #![trigger s[i], s[j]] 0 <= i < j < s.len() implies leq(s[j], s[i]) by {
                    assert(precedes(s[i], s[j], desc));
                }
            } else {
                assert forall|i: int, j: int| #![trigger s[i], s[j]] 0 <= i < j < s.len() implies leq(s[i], s[j]) by {
                    assert(precedes(s[i], s[j], desc));
                }
            }
            }
        }
    } else {
        reverse_vec(v);
    }
}

/// The index of the first element of `v` that is greater than `e`, or the
/// length of `v` when there is none.
pub fn first_greater<T: Ord>(v: &Vec<T>, e: &T) -> (r: usize)
    requires
        lawful_order::<T>(),
    ensures
        r <= v@.len(),
        forall|k: int| 0 <= k < r ==> leq(#[trigger] v@[k], *e),
        r < v@.len() ==> !leq(v@[r as int], *e),
{
    proof {
        lemma_order_basics::<T>();
    }
    let mut i: usize = 0;
    while i < v.len()
        invariant
            lawful_order::<T>(),
            i <= v@.len(),
            forall|k: int| 0 <= k < i ==> leq(#[trigger] v@[k], *e),
        decreases v@.len() - i,
    {
        proof {
            lemma_order_basics::<T>();
        }
        if *e < v[i] {
            return i;
        }
        i = i + 1;
    }
    i
}

/// A position in `v` after all elements at most `e` around it and before a
/// greater one, found by halving: on an ascending `v` it is the position
/// after the last element at most `e`.
pub fn upper_bound<T: Ord>(v: &Vec<T>, e: &T) -> (r: usize)
    requires
        lawful_order::<T>(),
    ensures
        r <= v@.len(),
        r > 0 ==> leq(v@[r - 1], *e),
        r < v@.len() ==> !leq(v@[r as int], *e),
{
    proof {
        lemma_order_basics::<T>();
    }
    let mut lo: usize = 0;
    let mut hi: usize = v.len();
    while lo < hi
        invariant
            lawful_order::<T>(),
            lo <= hi <= v@.len(),
            lo > 0 ==> leq(v@[lo - 1], *e),
            hi < v@.len() ==> !leq(v@[hi as int], *e),
        decreases hi - lo,
    {
        proof {
            lemma_order_basics::<T>();
        }
        let mid = lo + (hi - lo) / 2;
        if *e < v[mid] {
            hi = mid;
        } else {
            lo = mid + 1;
        }
    }
    lo
}

} // verus!
