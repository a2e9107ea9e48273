use swingr::series::{dedup_sort_order, shift, stable_order, swing_levels};

#[test]
fn shift_lags_and_fills() {
    assert_eq!(shift(&[1, 2, 3, 4], 2, 0), vec![0, 0, 1, 2]);
    assert_eq!(shift(&[1, 2], 5, -1), vec![-1, -1]);
    assert_eq!(shift::<i32>(&[], 1, 0), Vec::<i32>::new());
}

#[test]
fn swing_highs_and_lows_in_window() {
    let highs = vec![Some(1), Some(5), Some(2), Some(3), Some(3), Some(1), Some(0)];
    let lows = vec![Some(0), Some(4), Some(1), Some(2), Some(2), None, Some(-1)];
    let (h, l) = swing_levels(&highs, &lows, 1);
    assert_eq!(h, vec![1, 3, 4]);
    assert_eq!(l, vec![2, 4]);
    let (h, l) = swing_levels(&highs, &lows, 4);
    assert!(h.is_empty() && l.is_empty());
    let (h, _) = swing_levels(&vec![None, None, None], &vec![None, None, None], 1);
    assert!(h.is_empty());
}

#[test]
fn stable_order_keeps_ties_in_place() {
    let keys = vec![Some(3), None, Some(7), Some(3), Some(-2)];
    assert_eq!(stable_order(&keys, true), vec![2, 0, 3, 4, 1]);
    assert_eq!(stable_order(&keys, false), vec![1, 4, 0, 3, 2]);
    assert!(stable_order(&Vec::new(), true).is_empty());
}

#[test]
fn dedup_sort_drops_same_cent_levels() {
    let keys = vec![Some(30), Some(10), Some(11), Some(20)];
    let cents = vec![300, 100, 100, 200];
    assert_eq!(dedup_sort_order(&keys, &cents, true), vec![1, 3, 0]);
    assert_eq!(dedup_sort_order(&keys, &cents, false), vec![0, 3, 1]);
}
