use ownership_lists::bubble_sort::bubble_sort;

#[test]
fn sorts_array() {
    let mut array = [7, 5, 6, 1, 8, 3];
    bubble_sort(&mut array);
    assert_eq!(array, [1, 3, 5, 6, 7, 8]);
}

#[test]
fn bubble_sort_keeps_repeated_elements() {
    let mut array = [3, 1, 3, 2, 1, 1];
    bubble_sort(&mut array);
    assert_eq!(array, [1, 1, 1, 2, 3, 3]);
}

#[test]
fn bubble_sort_on_short_arrays() {
    let mut empty: [u32; 0] = [];
    bubble_sort(&mut empty);
    assert_eq!(empty, []);
    let mut one = [9];
    bubble_sort(&mut one);
    assert_eq!(one, [9]);
    let mut two = [u32::MAX, 0];
    bubble_sort(&mut two);
    assert_eq!(two, [0, u32::MAX]);
}
