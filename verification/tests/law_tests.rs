use enhvec::{EnhVec, Sorting};
use std::hash::{Hash, Hasher};

fn ev_of(v: Vec<i32>) -> EnhVec<i32> {
    EnhVec::new_from(v)
}

#[test]
fn pop_returns_what_push_added() {
    let mut ev = ev_of(vec![5, 1, 4]);
    ev.push(7);
    assert_eq!(ev.pop(), Some(7));
    assert_eq!(ev.to_vec(), vec![5, 1, 4]);
    let mut empty: EnhVec<i32> = EnhVec::new();
    assert_eq!(empty.pop(), None);
}

#[test]
fn pop_takes_from_front_part_when_main_is_empty() {
    let mut ev: EnhVec<i32> = EnhVec::new();
    ev.push_front(1);
    ev.push_front(2);
    assert_eq!(ev.to_vec(), vec![2, 1]);
    assert_eq!(ev.pop(), Some(1));
    assert_eq!(ev.to_vec(), vec![2]);
}

#[test]
fn reverse_twice_restores() {
    let mut ev = ev_of(vec![3, 1, 2]);
    ev.push_front(9);
    ev.reverse();
    ev.reverse();
    assert_eq!(ev.to_vec(), vec![9, 3, 1, 2]);
}

#[test]
fn reverse_turns_all_elements_around() {
    let mut ev = ev_of(vec![3, 1, 2]);
    ev.push_front(9);
    ev.push_front(8);
    ev.reverse();
    assert_eq!(ev.to_vec(), vec![2, 1, 3, 9, 8]);
}

#[test]
fn reverse_of_sorted_is_descending_and_sort_reverses() {
    let mut ev = ev_of(vec![3, 1, 2]);
    ev.sort(Sorting::Ascending);
    ev.reverse();
    assert_eq!(ev.to_vec(), vec![3, 2, 1]);
    ev.sort(Sorting::Ascending);
    assert_eq!(ev.to_vec(), vec![1, 2, 3]);
}

#[test]
fn pop_front_returns_what_push_front_added() {
    let mut ev = ev_of(vec![4, 5]);
    ev.push_front(3);
    assert_eq!(ev.pop_front(), Some(3));
    assert_eq!(ev.to_vec(), vec![4, 5]);
}

#[test]
fn pop_front_of_unsorted_main_moves_last_forward() {
    let mut ev = ev_of(vec![4, 5, 6, 7]);
    assert_eq!(ev.pop_front(), Some(4));
    assert_eq!(ev.to_vec(), vec![7, 5, 6]);
    let mut sorted = ev_of(vec![4, 5, 6, 7]);
    sorted.sort(Sorting::Ascending);
    assert_eq!(sorted.pop_front(), Some(4));
    assert_eq!(sorted.to_vec(), vec![5, 6, 7]);
}

#[test]
fn full_front_part_keeps_the_order() {
    let mut ev: EnhVec<i32> = EnhVec::new();
    for i in 1..=17 {
        ev.push_front(i);
    }
    let expected: Vec<i32> = (1..=17).rev().collect();
    assert_eq!(ev.to_vec(), expected);
    assert_eq!(ev.first(), Some(&17));
    assert_eq!(ev.last(), Some(&1));
}

#[test]
fn full_front_part_folds_in_front() {
    let mut ev = ev_of(vec![100, 200]);
    ev.sort(Sorting::Ascending);
    for i in 1..=17 {
        ev.push_front(i);
    }
    let mut expected: Vec<i32> = vec![17];
    expected.extend((1..=16).rev());
    expected.extend(vec![100, 200]);
    assert_eq!(ev.to_vec(), expected);
}

#[test]
fn insert_sorted_keeps_ascending_order() {
    let mut ev = ev_of((0..30).map(|x| x * 2).collect());
    ev.insert_sorted(7);
    ev.insert_sorted(-1);
    ev.insert_sorted(100);
    ev.insert_sorted(20);
    let v = ev.to_vec();
    assert_eq!(v.len(), 34);
    assert!(v.windows(2).all(|w| w[0] <= w[1]));
    assert_eq!(v[0], -1);
    assert_eq!(v[33], 100);
    let small = ev_of(vec![1, 2, 2, 5]);
    let mut small = small;
    small.insert_sorted(2);
    assert_eq!(small.to_vec(), vec![1, 2, 2, 2, 5]);
}

#[test]
fn insert_sorted_pushes_onto_unsorted() {
    let mut ev = ev_of(vec![5, 1, 9]);
    ev.insert_sorted(3);
    assert_eq!(ev.to_vec(), vec![5, 1, 9, 3]);
}

#[test]
fn sorted_view_does_not_depend_on_insertion_order() {
    let a = ev_of(vec![3, 1, 2, 2, 9]);
    let b = ev_of(vec![9, 2, 3, 2, 1]);
    let sa: Vec<i32> = a.as_sorted_asc().into_iter().copied().collect();
    let sb: Vec<i32> = b.as_sorted_asc().into_iter().copied().collect();
    assert_eq!(sa, sb);
    assert_eq!(sa, vec![1, 2, 2, 3, 9]);
    let da: Vec<i32> = a.as_sorted_desc().into_iter().copied().collect();
    assert_eq!(da, vec![9, 3, 2, 2, 1]);
}

#[test]
fn sort_sorts_after_changes_and_front_part() {
    let mut ev: EnhVec<i32> = EnhVec::new_sorted(Sorting::Ascending);
    ev.push(3);
    ev.push(1);
    ev.sort(Sorting::Ascending);
    assert_eq!(ev.to_vec(), vec![1, 3]);
    ev.push(0);
    ev.sort(Sorting::Ascending);
    assert_eq!(ev.to_vec(), vec![0, 1, 3]);
    ev.push_front(5);
    ev.sort(Sorting::Ascending);
    assert_eq!(ev.to_vec(), vec![0, 1, 3, 5]);
    ev.sort(Sorting::Descending);
    assert_eq!(ev.to_vec(), vec![5, 3, 1, 0]);
}

#[test]
fn sorted_access_after_push_front() {
    let mut ev = ev_of(vec![1, 2, 3]);
    ev.sort(Sorting::Ascending);
    ev.push_front(9);
    let s: Vec<i32> = ev.as_sorted_asc().into_iter().copied().collect();
    assert_eq!(s, vec![1, 2, 3, 9]);
    assert!(!ev.is_sorted());
    let fresh = ev_of(vec![9, 1, 2, 3]);
    assert_eq!(hash_of(&ev), hash_of(&fresh));
}

#[test]
fn is_sorted_reads_all_elements() {
    let mut ev = ev_of(vec![1, 2]);
    ev.push_front(9);
    assert!(!ev.is_sorted());
    let mut ok = ev_of(vec![5, 6, 7]);
    ok.push_front(1);
    assert!(ok.is_sorted());
}

#[test]
fn insert_sorted_with_front_part() {
    let mut ev = ev_of(vec![5, 6, 7]);
    ev.push_front(1);
    ev.insert_sorted(3);
    assert_eq!(ev.to_vec(), vec![1, 3, 5, 6, 7]);
    let mut only_front: EnhVec<i32> = EnhVec::new();
    only_front.push_front(2);
    only_front.push_front(1);
    only_front.insert_sorted(0);
    assert_eq!(only_front.to_vec(), vec![0, 1, 2]);
}

#[test]
fn push_swap_front_swaps_with_first_element() {
    let mut ev = ev_of(vec![1, 2]);
    ev.push_front(0);
    ev.push_swap_front(9);
    assert_eq!(ev.to_vec(), vec![9, 1, 2, 0]);
}

#[test]
fn insert_counts_all_elements() {
    let mut ev = ev_of(vec![1, 2]);
    ev.push_front(0);
    ev.insert(1, 7);
    assert_eq!(ev.to_vec(), vec![0, 7, 1, 2]);
}

#[test]
fn median_after_push_front() {
    let mut ev = ev_of(vec![1, 2, 3]);
    ev.sort(Sorting::Ascending);
    ev.push_front(9);
    assert_eq!(ev.median(), Some(2));
}

#[test]
fn is_sorted_reads_front_and_main_parts() {
    let mut ev = ev_of(vec![1, 2, 3]);
    assert!(ev.is_sorted());
    ev.push_front(9);
    assert!(!ev.is_sorted());
    let unsorted = ev_of(vec![1, 3, 2, 4]);
    assert!(!unsorted.is_sorted());
    let pair = ev_of(vec![2, 1]);
    assert!(!pair.is_sorted());
}

#[test]
fn subset_and_superset_are_dual() {
    let a = ev_of(vec![1, 2]);
    let b = ev_of(vec![1, 2, 3]);
    assert!(a.is_subset(&b));
    assert!(b.is_superset(&a));
    assert!(!b.is_subset(&a));
    assert!(!a.is_superset(&b));
    assert!(a.is_proper_subset(&b));
    assert!(b.is_proper_superset(&a));
    assert!(a.is_proper(&b));
    assert!(a.is_proper_either(&b));
    assert!(!a.is_proper_both(&b));
    assert!(!b.is_proper_both(&a));
}

#[test]
fn disjoint_is_symmetric() {
    let a = ev_of(vec![1, 2]);
    let b = ev_of(vec![3, 4]);
    let c = ev_of(vec![4, 5]);
    assert!(a.is_disjoint(&b));
    assert!(b.is_disjoint(&a));
    assert!(!b.is_disjoint(&c));
    assert!(!c.is_disjoint(&b));
    assert!(b.contains_any(&c));
    assert!(!a.contains_any(&c));
}

#[test]
fn contains_family() {
    let a = ev_of(vec![1, 2, 2]);
    let b = ev_of(vec![2, 1, 1]);
    assert!(a.contains(&2));
    assert!(!a.contains(&5));
    assert!(a.contains_all(&b));
    assert!(a.contains_only(&b));
    assert!(!a.is_equal(&b));
    assert!(a.is_equal(&ev_of(vec![2, 1, 2])));
    assert!(a.contains_only(&a));
    let c = ev_of(vec![1, 2]);
    assert!(a.contains_only(&c));
    let d = ev_of(vec![1, 2, 3]);
    assert!(!d.contains_only(&a));
    assert!(a.contains_only(&d));
}

#[test]
fn count_is_multiplicity() {
    let a = ev_of(vec![4, 4, 1, 4]);
    assert_eq!(a.count(&4), 3);
    assert_eq!(a.count(&1), 1);
    assert_eq!(a.count(&0), 0);
}

#[test]
fn mode_occurs_most_often() {
    let a = ev_of(vec![1, 7, 7, 2, 7, 2]);
    assert_eq!(a.mode(), Some(7));
}

#[test]
fn distinct_without_order_and_descending() {
    let a = ev_of(vec![3, 1, 3, 2, 1]);
    let d = a.distinct(None);
    let mut v = d.to_vec();
    v.sort();
    assert_eq!(v, vec![1, 2, 3]);
    let desc = a.distinct(Some(Sorting::Descending));
    assert_eq!(desc.to_vec(), vec![3, 2, 1]);
    assert!(!desc.is_sorted());
}

#[test]
fn median_rounds_toward_zero() {
    let a = ev_of(vec![-2, -3]);
    assert_eq!(a.median(), Some(-2));
    let b = ev_of(vec![10, 2, 7, 1]);
    assert_eq!(b.median(), Some(4));
}

#[test]
fn range_and_sum_of_signed() {
    let a = ev_of(vec![-5, 10, 3]);
    assert_eq!(a.range(), Some(15));
    assert_eq!(a.sum(), 8);
    assert_eq!(a.product(), -150);
}

#[test]
fn value_at_rank_out_of_range() {
    let a = ev_of(vec![5, 1, 3]);
    assert_eq!(a.value_at_rank(0), Some(1));
    assert_eq!(a.value_at_rank(2), Some(5));
    assert_eq!(a.value_at_rank(3), None);
}

#[test]
fn insert_at_index_and_into_vec() {
    let mut a = ev_of(vec![1, 3]);
    a.insert(1, 2);
    a.push_front(0);
    assert_eq!(a.into_vec(), vec![0, 1, 2, 3]);
}

#[test]
fn constructors_are_empty() {
    let a: EnhVec<u8> = EnhVec::new_with_capacity(10);
    assert!(a.is_empty());
    assert_eq!(a.first(), None);
    assert_eq!(a.last(), None);
    let b: EnhVec<u8> = EnhVec::new_sorted(Sorting::Descending);
    assert_eq!(b.len(), 0);
    let c: EnhVec<u8> = EnhVec::default();
    assert_eq!(c.len(), 0);
    assert_eq!(Sorting::default(), Sorting::NoOrder);
}

#[test]
fn iter_yields_front_then_main() {
    let mut a = ev_of(vec![5, 6]);
    a.push_front(4);
    let v: Vec<i32> = a.iter().copied().collect();
    assert_eq!(v, vec![4, 5, 6]);
    assert_eq!(a[0], 4);
    assert_eq!(a[2], 6);
}

#[test]
fn equality_compares_parts() {
    let mut a = ev_of(vec![2]);
    a.push_front(1);
    let b = ev_of(vec![1, 2]);
    assert_eq!(a.to_vec(), b.to_vec());
    assert_ne!(a, b);
    let c = ev_of(vec![1, 2]);
    assert_eq!(b, c);
}

fn hash_of(ev: &EnhVec<i32>) -> u64 {
    let mut h = std::collections::hash_map::DefaultHasher::new();
    ev.hash(&mut h);
    h.finish()
}

#[test]
fn hash_does_not_depend_on_order() {
    let a = ev_of(vec![3, 1, 2]);
    let mut b = ev_of(vec![2]);
    b.push(3);
    b.push_front(1);
    assert_eq!(hash_of(&a), hash_of(&b));
    let c = ev_of(vec![3, 1, 4]);
    assert_ne!(hash_of(&a), hash_of(&c));
}

#[test]
fn iter_mut_visits_all_elements() {
    let mut ev = ev_of(vec![1, 2, 3]);
    ev.push_front(9);
    for x in ev.iter_mut() {
        *x *= 10;
    }
    assert_eq!(ev.to_vec(), vec![90, 10, 20, 30]);
    assert_eq!(ev.len(), 4);
}

#[test]
fn as_mut_ref_vec_reaches_all_elements() {
    let mut ev = ev_of(vec![1, 2, 3]);
    ev.push_front(4);
    for x in ev.as_mut_ref_vec() {
        *x += 1;
    }
    assert_eq!(ev.to_vec(), vec![5, 2, 3, 4]);
}

#[test]
fn index_mut_writes_the_element() {
    let mut ev = ev_of(vec![1, 2, 3]);
    ev.push_front(0);
    ev[1] = 7;
    ev[0] = 5;
    assert_eq!(ev.to_vec(), vec![5, 7, 2, 3]);
    assert_eq!(ev[1], 7);
}

#[test]
fn from_vec_keeps_the_elements() {
    let ev: EnhVec<i32> = EnhVec::from(vec![3, 1, 2]);
    assert_eq!(ev.to_vec(), vec![3, 1, 2]);
    let ev2: EnhVec<i32> = vec![4, 5].into();
    assert_eq!(ev2.len(), 2);
}

#[test]
fn sort_handles_many_elements() {
    let mut ev = ev_of((0..2000).map(|x| (x * 7919) % 2003).collect());
    ev.sort(Sorting::Ascending);
    let v = ev.to_vec();
    assert!(v.windows(2).all(|w| w[0] <= w[1]));
    assert_eq!(v.len(), 2000);
    ev.push(-5);
    ev.sort(Sorting::Descending);
    let d = ev.to_vec();
    assert!(d.windows(2).all(|w| w[0] >= w[1]));
    assert_eq!(d[2000], -5);
}
