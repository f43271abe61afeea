use chronix::{aggregate, median_mut, minimum, percentile_index, percentile_mut, select_nth};
use chronix::Aggregation;

#[test]
fn three_samples_minimum_and_median() {
    assert_eq!(minimum(&vec![5, 1, 3]), Some(1));
    let mut v = vec![5, 1, 3];
    assert_eq!(median_mut(&mut v), Some((3, 3)));
}

#[test]
fn even_count_median_is_middle_pair() {
    let mut v = vec![5, 1, 3, 7];
    assert_eq!(median_mut(&mut v), Some((3, 5)));
    let mut w = vec![9, 2, 8, 1, 7, 3];
    assert_eq!(median_mut(&mut w), Some((3, 7)));
}

#[test]
fn even_median_left_part_unsorted() {
    // the largest of the lower half need not stand next to the middle after selection
    let mut v = vec![4, 10, 1, 9, 2, 3, 8, 7];
    assert_eq!(median_mut(&mut v), Some((4, 7)));
}

#[test]
fn percentile_fifty_of_five() {
    let mut v = vec![1, 2, 3, 4, 5];
    assert_eq!(percentile_mut(&mut v, 50), Some(3));
    assert_eq!(percentile_index(5, 50), 2);
}

#[test]
fn percentile_endpoints_are_extremes() {
    let s = vec![7, 3, 9, 3, 12, 5];
    let mut a = s.clone();
    let mut b = s.clone();
    assert_eq!(percentile_mut(&mut a, 0), minimum(&s));
    assert_eq!(percentile_mut(&mut b, 100), Some(12));
    let mut c = s.clone();
    assert_eq!(percentile_mut(&mut c, 250), Some(12));
}

#[test]
fn percentile_index_rounds_to_nearest() {
    assert_eq!(percentile_index(10, 95), 9);
    assert_eq!(percentile_index(11, 95), 10);
    assert_eq!(percentile_index(100, 95), 94);
    assert_eq!(percentile_index(4, 50), 2);
    assert_eq!(percentile_index(1, 95), 0);
    assert_eq!(percentile_index(7, 1000), 6);
}

#[test]
fn empty_samples_give_none() {
    let e: Vec<u64> = vec![];
    assert_eq!(minimum(&e), None);
    let mut m: Vec<u64> = vec![];
    assert_eq!(median_mut(&mut m), None);
    let mut p: Vec<u64> = vec![];
    assert_eq!(percentile_mut(&mut p, 0), None);
    assert_eq!(percentile_mut(&mut p, 95), None);
    assert_eq!(aggregate(&e, Aggregation::Min), None);
}

#[test]
fn reordering_keeps_aggregates() {
    let orders = vec![vec![4, 8, 1, 6, 2], vec![1, 2, 4, 6, 8], vec![8, 6, 4, 2, 1], vec![6, 1, 8, 2, 4]];
    for o in orders {
        assert_eq!(aggregate(&o, Aggregation::Min), Some((1, 1)));
        assert_eq!(aggregate(&o, Aggregation::Median), Some((4, 4)));
        assert_eq!(aggregate(&o, Aggregation::P95), Some((8, 8)));
        let mut v = o.clone();
        assert_eq!(percentile_mut(&mut v, 30), Some(2));
    }
}

#[test]
fn median_between_minimum_and_maximum() {
    let s = vec![100, 3, 3, 50, 7, 3];
    let mut v = s.clone();
    let (lo, hi) = median_mut(&mut v).unwrap();
    assert!(minimum(&s).unwrap() <= lo);
    assert!(lo <= hi);
    assert!(hi <= 100);
    assert_eq!((lo, hi), (3, 7));
}

#[test]
fn selection_partitions_and_keeps_samples() {
    let s = vec![9, 4, 7, 1, 8, 2, 6, 3, 5, 0];
    for k in 0..s.len() {
        let mut v = s.clone();
        select_nth(&mut v, k);
        assert_eq!(v[k], k as u64);
        for i in 0..k {
            assert!(v[i] <= v[k]);
        }
        for j in k + 1..v.len() {
            assert!(v[j] >= v[k]);
        }
        let mut sorted = v.clone();
        sorted.sort();
        assert_eq!(sorted, (0..10).collect::<Vec<u64>>());
    }
}

#[test]
fn selection_with_equal_samples() {
    let mut v = vec![5, 5, 5, 5];
    select_nth(&mut v, 2);
    assert_eq!(v, vec![5, 5, 5, 5]);
    let mut w = vec![2, 1, 2, 1, 2];
    assert_eq!(median_mut(&mut w), Some((2, 2)));
}

#[test]
fn aggregate_dispatches_on_kind() {
    let s = vec![40, 10, 30, 20];
    assert_eq!(aggregate(&s, Aggregation::Min), Some((10, 10)));
    assert_eq!(aggregate(&s, Aggregation::Median), Some((20, 30)));
    assert_eq!(aggregate(&s, Aggregation::P95), Some((40, 40)));
    assert_eq!(s, vec![40, 10, 30, 20]);
}
