use enhvec::{EnhVec, Sorting};

const PI_LEN: usize = 16;
const PI_SUM: u32 = 80;
const PI_ARR: [u32; PI_LEN] = [3, 1, 4, 1, 5, 9, 2, 6, 5, 3, 5, 8, 9, 7, 9, 3];
const PI_ASC: [u32; PI_LEN] = [1, 1, 2, 3, 3, 3, 4, 5, 5, 5, 6, 7, 8, 9, 9, 9];
const PI_DESC: [u32; PI_LEN] = [9, 9, 9, 8, 7, 6, 5, 5, 5, 4, 3, 3, 3, 2, 1, 1];
const XTRA: u32 = 99;

#[test]
fn lib_test_new_and_push() {
    let mut ev1: EnhVec<u32> = EnhVec::new();
    assert!(ev1.is_empty());
    ev1.push(PI_ARR[0]);
    ev1.push(PI_ARR[1]);
    assert_eq!(ev1.len(), 2);
    assert_eq!(ev1[0], PI_ARR[0]);
    assert_eq!(ev1[1], PI_ARR[1]);

    let ev2: EnhVec<u32> = EnhVec::new();
    assert_ne!(ev1, ev2);
}

#[test]
fn lib_test_from_iter() {
    let ev: EnhVec<u32> = EnhVec::from_iter(PI_ARR.into_iter());
    assert_eq!(ev.len(), PI_LEN);
    assert_eq!(ev[0], PI_ARR[0]);
    assert_eq!(ev[7], PI_ARR[7]);
}

#[test]
fn lib_test_is_sorted() {
    let t: Vec<i32> = vec![-1, 0, 1, 2, 3, 4, 5, 99];
    let ev1: EnhVec<i32> = EnhVec::new_from(t.clone());
    assert!(ev1.is_sorted());

    let ev2: EnhVec<&i32> = EnhVec::from_iter(t.iter().rev());
    assert!(!ev2.is_sorted());
}

#[test]
fn lib_test_sort_asc_and_iter() {
    let mut ev: EnhVec<u32> = EnhVec::from_iter(PI_ARR.into_iter());
    ev.sort(Sorting::Ascending);
    assert_eq!(ev.len(), PI_LEN);

    let test: Vec<u32> = Vec::from_iter(PI_ASC);
    assert_eq!(ev.to_vec(), test);
    ev.iter()
        .enumerate()
        .for_each(|(i, x)| assert_eq!(x, &test[i]));
}

#[test]
fn lib_test_sort_desc_and_iter() {
    let mut ev: EnhVec<u32> = EnhVec::from_iter(PI_ARR.into_iter());
    ev.sort(Sorting::Descending);
    assert_eq!(ev.len(), PI_LEN);

    let test: Vec<u32> = Vec::from_iter(PI_DESC);
    assert_eq!(ev.to_vec(), test);
    ev.iter()
        .enumerate()
        .for_each(|(i, x)| assert_eq!(x, &test[i]));
}

#[test]
fn lib_test_push_front() {
    let mut ev: EnhVec<u32> = EnhVec::from_iter(PI_ARR.into_iter());
    ev.push_front(XTRA);
    assert_eq!(ev.len(), PI_LEN + 1);

    let mut test: Vec<u32> = Vec::from_iter(PI_ARR);
    test.insert(0, XTRA);
    assert_eq!(ev.to_vec(), test);
}

#[test]
fn lib_test_push_swap_front() {
    let mut ev: EnhVec<u32> = EnhVec::from_iter(PI_ARR.into_iter());
    ev.push_swap_front(XTRA);
    assert_eq!(ev.len(), PI_LEN + 1);

    let mut test: Vec<u32> = Vec::from_iter(PI_ARR);
    test.push(XTRA);
    test.swap(0, PI_LEN);
    assert_eq!(ev.to_vec(), test);
}

#[test]
fn lib_test_insert_sorted() {
    let x: i32 = XTRA as i32;
    let mut ev: EnhVec<i32> = EnhVec::from_iter(vec![-x, 1, 3, 5, x].into_iter());
    assert_eq!(ev.len(), 5);
    ev.insert_sorted(4);
    assert_eq!(ev.len(), 6);
    assert_eq!(ev.to_vec(), vec![-x, 1, 3, 4, 5, x]);
}

#[test]
fn lib_test_as_ref_vec() {
    let ev: EnhVec<u32> = EnhVec::from_iter(PI_ARR.into_iter());
    let test: Vec<&u32> = PI_ARR.iter().collect();
    assert_eq!(ev.as_ref_vec(), test);
}

#[test]
fn lib_test_for_each() {
    let ev: EnhVec<u32> = EnhVec::from_iter(PI_ARR.into_iter());

    let mut sum: u32 = 0;
    ev.for_each(|x: &u32| sum += x);
    assert_eq!(sum, PI_SUM, "sum of all digits");

    let mut sum_if: u32 = 0;
    ev.for_each_if(|x: &u32| sum_if += x, |x: &u32| x % 2 == 0);
    assert_eq!(sum_if, 20, "sum of even digits");
}

#[test]
fn lib_test_modify_each() {
    let mut ev: EnhVec<u32> = EnhVec::from_iter(PI_ARR.into_iter());

    ev.modify_each(|x: &mut u32| *x += 1);
    assert_eq!(ev.to_vec(), vec![4, 2, 5, 2, 6, 10, 3, 7, 6, 4, 6, 9, 10, 8, 10, 4]);

    ev.modify_each_if(|x: &mut u32| *x -= 1, |x: &u32| x > &5);
    assert_eq!(ev.to_vec(), vec![4, 2, 5, 2, 5, 9, 3, 6, 5, 4, 5, 8, 9, 7, 9, 4]);
}

#[test]
fn lib_test_count() {
    let ev: EnhVec<u32> = EnhVec::from_iter(PI_ARR.into_iter());
    assert_eq!(ev.count(&0), 0);
    assert_eq!(ev.count(&1), 2);
    assert_eq!(ev.count(&2), 1);
    assert_eq!(ev.count(&3), 3);
    assert_eq!(ev.count(&4), 1);
    assert_eq!(ev.count(&5), 3);
    assert_eq!(ev.count(&6), 1);
    assert_eq!(ev.count(&7), 1);
    assert_eq!(ev.count(&8), 1);
    assert_eq!(ev.count(&9), 3);
    assert_eq!(ev.count(&XTRA), 0);
}

#[test]
fn lib_test_sum() {
    let ev: EnhVec<u32> = EnhVec::from_iter(PI_ARR.into_iter());
    assert_eq!(ev.sum(), PI_SUM);
}

#[test]
fn lib_test_range() {
    let ev: EnhVec<u32> = EnhVec::from_iter(PI_ARR.into_iter());
    assert_eq!(ev.range(), Some(8));
}

#[test]
fn lib_test_median() {
    let ev1: EnhVec<i32> = EnhVec::from_iter(vec![1, 3, 5].into_iter());
    assert_eq!(ev1.median(), Some(3));

    let ev2: EnhVec<i32> = EnhVec::from_iter(vec![1, 2, 3, 4].into_iter());
    assert_eq!(ev2.median(), Some(2));
}

#[test]
fn lib_test_mode() {
    let ev: EnhVec<u32> = EnhVec::from_iter(PI_ARR.into_iter());
    // 3, 5 and 9 have the same count
    assert!(matches!(ev.mode(), Some(3) | Some(5) | Some(9)), "mode is not 3, 5 or 9");
}

#[test]
fn lib_test_product() {
    let ev: EnhVec<u32> = EnhVec::from_iter(PI_ARR.into_iter());
    let mut prod: i128 = 1;
    ev.for_each(|x: &u32| prod *= *x as i128);
    assert_eq!(ev.product(), prod);
}

#[test]
fn lib_test_distinct() {
    let x: i32 = XTRA as i32;
    let data: Vec<i32> = vec![x, 1, 2, 2, -x, 3, 3, 3, 4];
    let ev: EnhVec<i32> = EnhVec::from_iter(data.into_iter());
    let distinct: EnhVec<i32> = ev.distinct(Some(Sorting::Ascending));
    assert_eq!(distinct.to_vec(), vec![-x, 1, 2, 3, 4, x]);
}

#[test]
fn lib_test_empty_vec() {
    let ev: EnhVec<i32> = EnhVec::new();
    assert!(ev.is_empty());
    assert_eq!(ev.sum(), 0, "sum is not zero");
    assert_eq!(ev.product(), 1, "product is not one");
    assert_eq!(ev.range(), None, "range is not None");
    assert_eq!(ev.median(), None, "median is not None");
    assert_eq!(ev.mode(), None, "mode is not None");
    assert_eq!(ev.value_at_rank(0), None, "rank 0 is not None");
    assert!(ev.is_sorted(), "is_sorted");
}

#[test]
fn lib_test_single_element() {
    let purpose: i32 = 42;
    let ev: EnhVec<i32> = EnhVec::from_iter(vec![purpose].into_iter());
    assert_eq!(ev.sum(), purpose, "sum");
    assert_eq!(ev.product(), purpose.into(), "product");
    assert_eq!(ev.range(), Some(0), "range");
    assert_eq!(ev.median(), Some(purpose), "median");
    assert_eq!(ev.mode(), Some(purpose), "mode");
    assert_eq!(ev.value_at_rank(0), Some(purpose), "rank 0");
    assert_eq!(ev.value_at_rank(1), None, "rank 1");
    assert!(ev.is_sorted(), "is_sorted");
}
