use running_stats::insertion_sort;

#[test]
fn test_insertion_sort() {
    let mut arr = vec![5, 2, 4, 6, 1, 3];
    let mut arr2 = vec![31, 41, 59, 26, 41, 58];

    assert_eq!(insertion_sort(&mut arr), vec![1, 2, 3, 4, 5, 6]);
    assert_eq!(insertion_sort(&mut arr2), vec![26, 31, 41, 41, 58, 59]);
}

#[test]
fn sort_leaves_vector_sorted_in_place() {
    let mut arr: Vec<u8> = vec![255, 0, 7, 0, 255, 128];
    insertion_sort(&mut arr);
    assert_eq!(arr, vec![0, 0, 7, 128, 255, 255]);
}

#[test]
fn sort_single_element() {
    let mut arr: Vec<u8> = vec![9];
    assert_eq!(insertion_sort(&mut arr), vec![9]);
}

#[test]
fn sort_equal_and_reversed() {
    let mut same: Vec<u8> = vec![4, 4, 4];
    assert_eq!(insertion_sort(&mut same), vec![4, 4, 4]);
    let mut rev: Vec<u8> = vec![6, 5, 4, 3, 2, 1];
    assert_eq!(insertion_sort(&mut rev), vec![1, 2, 3, 4, 5, 6]);
}
