//! The order and equality that the element type must obey, and the facts
//! about sorted sequences that the rest of the crate is proved from.
use vstd::laws_cmp::obeys_cmp;
use vstd::laws_eq::obeys_concrete_eq;
use vstd::prelude::*;
use vstd::std_specs::cmp::{OrdSpec, PartialEqSpec, PartialOrdSpec, PartialOrdIs};

verus! {

/// The element type's `Ord` is a lawful total order: `<=` is reflexive,
/// transitive and total, and `==` agrees with "neither is smaller".
pub open spec fn lawful_order<T: Ord>() -> bool {
    obeys_cmp::<T>()
}

/// The element type's `==` is the mathematical equality of values.
pub open spec fn exact_eq<T: PartialEq>() -> bool {
    obeys_concrete_eq::<T>()
}

/// The element type's `==` is described by `eq_spec`.
pub open spec fn lawful_eq<T: PartialEq>() -> bool {
    T::obeys_eq_spec()
}

/// `a` is at most `b` in the element type's order.
pub open spec fn leq<T: PartialOrd>(a: T, b: T) -> bool {
    a.is_le(&b)
}

/// `s` is in ascending order.
pub open spec fn ascending<T: PartialOrd>(s: Seq<T>) -> bool {
    forall|i: int, j: int| #![trigger s[i], s[j]] 0 <= i < j < s.len() ==> leq(s[i], s[j])
}

/// `s` is in descending order.
pub open spec fn descending<T: PartialOrd>(s: Seq<T>) -> bool {
    forall|i: int, j: int| #![trigger s[i], s[j]] 0 <= i < j < s.len() ==> leq(s[j], s[i])
}

/// Each element of `s` is at most its successor.
pub open spec fn adjacent_ascending<T: PartialOrd>(s: Seq<T>) -> bool {
    forall|i: int| 0 <= i < s.len() - 1 ==> #[trigger] leq(s[i], s[i + 1])
}

/// References compare as the values they point to.
pub proof fn lemma_ref_lawful<T: Ord>()
    requires
        lawful_order::<T>(),
    ensures
        lawful_order::<&T>(),
{
    broadcast use vstd::laws_cmp::lemma_ref_obeys_cmp_spec;

    assert(lawful_order::<&T>());
}

/// The basic facts of a lawful order: what `<`, `>`, `>=` mean in terms of
/// `<=`, and that `<=` is reflexive and total.
pub proof fn lemma_order_basics<T: Ord>()
    requires
        lawful_order::<T>(),
    ensures
        T::obeys_partial_cmp_spec(),
        T::obeys_eq_spec(),
        forall|x: T| #[trigger] leq(x, x),
        forall|x: T, y: T| #[trigger] leq(x, y) || leq(y, x),
        forall|x: T, y: T| #![trigger x.partial_cmp_spec(&y)] x.is_lt(&y) <==> !leq(y, x),
        forall|x: T, y: T| #![trigger x.partial_cmp_spec(&y)] x.is_gt(&y) <==> !leq(x, y),
        forall|x: T, y: T| #![trigger x.partial_cmp_spec(&y)] x.is_ge(&y) <==> leq(y, x),
        forall|x: T, y: T| #![trigger x.eq_spec(&y)] #![trigger x.partial_cmp_spec(&y)] x.eq_spec(&y) <==> (leq(x, y) && leq(y, x)),
{
    reveal(vstd::laws_cmp::obeys_cmp_partial_ord);
    reveal(vstd::laws_cmp::obeys_cmp_ord);
    reveal(vstd::laws_cmp::obeys_partial_cmp_spec_properties);
    reveal(vstd::laws_eq::obeys_eq_spec_properties);
    assert forall|x: T, y: T| #[trigger] leq(x, y) || leq(y, x) by {
        assert(x.partial_cmp_spec(&y) == Some(x.cmp_spec(&y)));
        assert(y.partial_cmp_spec(&x) == Some(y.cmp_spec(&x)));
    }
    assert forall|x: T| #[trigger] leq(x, x) by {
        assert(x.partial_cmp_spec(&x) == Some(x.cmp_spec(&x)));
    }
    assert forall|x: T, y: T| #![trigger x.partial_cmp_spec(&y)] x.is_lt(&y) <==> !leq(y, x) by {
        assert(x.partial_cmp_spec(&y) == Some(x.cmp_spec(&y)));
        assert(y.partial_cmp_spec(&x) == Some(y.cmp_spec(&x)));
    }
    assert forall|x: T, y: T| #![trigger x.partial_cmp_spec(&y)] x.is_gt(&y) <==> !leq(x, y) by {
        assert(x.partial_cmp_spec(&y) == Some(x.cmp_spec(&y)));
    }
    assert forall|x: T, y: T| #![trigger x.partial_cmp_spec(&y)] x.is_ge(&y) <==> leq(y, x) by {
        assert(x.partial_cmp_spec(&y) == Some(x.cmp_spec(&y)));
        assert(y.partial_cmp_spec(&x) == Some(y.cmp_spec(&x)));
    }
    assert forall|x: T, y: T| #![trigger x.eq_spec(&y)] #![trigger x.partial_cmp_spec(&y)] x.eq_spec(&y) <==> (leq(x, y) && leq(y, x)) by {
        assert(x.partial_cmp_spec(&y) == Some(x.cmp_spec(&y)));
        assert(y.partial_cmp_spec(&x) == Some(y.cmp_spec(&x)));
    }
}

/// `<=` is transitive.
pub proof fn lemma_le_trans<T: Ord>(x: T, y: T, z: T)
    requires
        lawful_order::<T>(),
        leq(x, y),
        leq(y, z),
    ensures
        leq(x, z),
{
    reveal(vstd::laws_cmp::obeys_cmp_partial_ord);
    reveal(vstd::laws_cmp::obeys_cmp_ord);
    reveal(vstd::laws_cmp::obeys_partial_cmp_spec_properties);
    reveal(vstd::laws_eq::obeys_eq_spec_properties);
    assert(x.partial_cmp_spec(&y) == Some(x.cmp_spec(&y)));
    assert(y.partial_cmp_spec(&z) == Some(y.cmp_spec(&z)));
    assert(x.partial_cmp_spec(&z) == Some(x.cmp_spec(&z)));
    assert(z.partial_cmp_spec(&x) == Some(z.cmp_spec(&x)));
    assert(y.partial_cmp_spec(&x) == Some(y.cmp_spec(&x)));
    assert(z.partial_cmp_spec(&y) == Some(z.cmp_spec(&y)));
}

/// Under an exact equality, elements that are each at most the other are equal.
pub proof fn lemma_le_antisym<T: Ord>(x: T, y: T)
    requires
        lawful_order::<T>(),
        exact_eq::<T>(),
        leq(x, y),
        leq(y, x),
    ensures
        x == y,
{
    lemma_order_basics::<T>();
    reveal(vstd::laws_eq::obeys_concrete_eq);
    assert(x.eq_spec(&y));
}

/// A sequence whose neighbours are in order is in ascending order.
pub proof fn lemma_adjacent_ascending<T: Ord>(s: Seq<T>)
    requires
        lawful_order::<T>(),
        adjacent_ascending(s),
    ensures
        ascending(s),
    decreases s.len(),
{
    if s.len() > 1 {
        let t = s.drop_last();
        assert(adjacent_ascending(t)) by {
            assert forall|i: int| 0 <= i < t.len() - 1 implies #[trigger] leq(t[i], t[i + 1]) by {
                assert(t[i] == s[i] && t[i + 1] == s[i + 1]);
            }
        }
        lemma_adjacent_ascending(t);
        let n = s.len() - 1;
        assert forall|i: int, j: int| #![trigger s[i], s[j]] 0 <= i < j < s.len() implies leq(s[i], s[j]) by {
            if j < n {
                assert(t[i] == s[i] && t[j] == s[j]);
            } else if i < n - 1 {
                assert(t[i] == s[i] && t[n - 1] == s[n - 1]);
                assert(leq(s[n - 1], s[(n - 1) + 1]));
                lemma_le_trans(s[i], s[n - 1], s[n]);
            } else {
                assert(leq(s[n - 1], s[(n - 1) + 1]));
            }
        }
    }
}

/// Reversing turns an ascending sequence into a descending one and back.
pub proof fn lemma_reverse_order<T: PartialOrd>(s: Seq<T>)
    ensures
        ascending(s) <==> descending(s.reverse()),
        descending(s) <==> ascending(s.reverse()),
{
    let r = s.reverse();
    let n = s.len();
    if ascending(s) {
        assert forall|i: int, j: int| #![trigger r[i], r[j]] 0 <= i < j < r.len() implies leq(r[j], r[i]) by {
            assert(r[j] == s[n - 1 - j] && r[i] == s[n - 1 - i]);
        }
    }
    if descending(r) {
        assert forall|i: int, j: int| #![trigger s[i], s[j]] 0 <= i < j < s.len() implies leq(s[i], s[j]) by {
            assert(r[n - 1 - j] == s[j] && r[n - 1 - i] == s[i]);
        }
    }
    if descending(s) {
        assert forall|i: int, j: int| #![trigger r[i], r[j]] 0 <= i < j < r.len() implies leq(r[i], r[j]) by {
            assert(r[j] == s[n - 1 - j] && r[i] == s[n - 1 - i]);
        }
    }
    if ascending(r) {
        assert forall|i: int, j: int| #![trigger s[i], s[j]] 0 <= i < j < s.len() implies leq(s[j], s[i]) by {
            assert(r[n - 1 - j] == s[j] && r[n - 1 - i] == s[i]);
        }
    }
}

} // verus!
