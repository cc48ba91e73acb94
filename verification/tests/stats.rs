use git_productivity_analyzer::stats::{median, percentile_of_sorted, sort, Median};

#[test]
fn sort_orders_values() {
    assert_eq!(sort(vec![3, 1, 2, 1]), vec![1, 1, 2, 3]);
    assert_eq!(sort(Vec::new()), Vec::<u32>::new());
}

#[test]
fn median_of_odd_and_even_lists() {
    assert_eq!(median(&vec![]), Median { lower: 0, upper: 0 });
    assert_eq!(median(&vec![7]), Median { lower: 7, upper: 7 });
    assert_eq!(median(&vec![3, 1, 2]), Median { lower: 2, upper: 2 });
    assert_eq!(median(&vec![4, 1, 3, 2]), Median { lower: 2, upper: 3 });
    assert_eq!(median(&vec![4, 1, 3, 2]).twice(), 5);
    assert_eq!(median(&vec![1, 10]).twice(), 11);
    assert_eq!(median(&vec![u32::MAX, u32::MAX]).twice(), 2 * (u32::MAX as u64));
}

#[test]
fn median_does_not_depend_on_the_order() {
    let values = vec![9, 4, 7, 1, 1, 8];
    let sorted = sort(values.clone());
    assert_eq!(median(&values), median(&sorted));
    assert_eq!(median(&sort(sorted.clone())), median(&sorted));
    let m = median(&values);
    assert!(1 <= m.lower && m.lower <= m.upper && m.upper <= 9);
}

#[test]
fn percentile_interpolates_between_neighbours() {
    let values = vec![10, 20, 30, 40];
    assert_eq!(percentile_of_sorted(&values, 0), Some(10));
    assert_eq!(percentile_of_sorted(&values, 100_000), Some(40));
    // rank 1.5: halfway between 20 and 30
    assert_eq!(percentile_of_sorted(&values, 50_000), Some(25));
    // rank 0.75: 10 + 0.75 * 10 = 17.5, rounded half up
    assert_eq!(percentile_of_sorted(&values, 25_000), Some(18));
    // rank 2.7: 30 + 0.7 * 10
    assert_eq!(percentile_of_sorted(&values, 90_000), Some(37));
    // rank 2.997
    assert_eq!(percentile_of_sorted(&values, 99_900), Some(40));
    assert_eq!(percentile_of_sorted(&vec![1, 2], 50_000), Some(2));
    assert_eq!(percentile_of_sorted(&vec![1, 2], 49_999), Some(1));
}

#[test]
fn percentile_of_short_lists() {
    assert_eq!(percentile_of_sorted(&vec![], 50_000), None);
    assert_eq!(percentile_of_sorted(&vec![5], 0), Some(5));
    assert_eq!(percentile_of_sorted(&vec![5], 50_000), Some(5));
    assert_eq!(percentile_of_sorted(&vec![5], 100_000), Some(5));
    assert_eq!(percentile_of_sorted(&vec![0, u32::MAX], 100_000), Some(u32::MAX));
    assert_eq!(percentile_of_sorted(&vec![0, u32::MAX], 99_999), Some(4_294_924_345));
}

#[test]
fn percentiles_lie_between_the_ends() {
    let values = sort(vec![12, 5, 9, 100, 33, 7, 7]);
    let p50 = percentile_of_sorted(&values, 50_000).unwrap();
    let p100 = percentile_of_sorted(&values, 100_000).unwrap();
    assert!(5 <= p50 && p50 <= p100);
    assert_eq!(p100, 100);
    assert_eq!(p50, 9);
    let again = sort(values.clone());
    assert_eq!(percentile_of_sorted(&again, 50_000), Some(p50));
}
