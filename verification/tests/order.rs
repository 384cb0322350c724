use erdueltools::order::stable_order;

#[test]
fn equal_keys_stay_in_place() {
    assert_eq!(stable_order(&vec![]), Vec::<usize>::new());
    assert_eq!(stable_order(&vec![5]), vec![0]);
    assert_eq!(stable_order(&vec![3, 1, 2]), vec![1, 2, 0]);
    assert_eq!(stable_order(&vec![2, 1, 2, 1, 2]), vec![1, 3, 0, 2, 4]);
}

#[test]
fn the_order_is_that_of_a_stable_sort() {
    let keys: Vec<u64> = (0..200u64).map(|n| (n * 7919) % 13).collect();
    let mut expected: Vec<usize> = (0..keys.len()).collect();
    expected.sort_by_key(|i| keys[*i]);
    assert_eq!(stable_order(&keys), expected);
}
