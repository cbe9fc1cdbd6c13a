use ownership_lists::binary_search::binary_search;
use ownership_lists::linear_search::linear_search;
use ownership_lists::two_crystal_balls::{floor_sqrt, two_crystal_balls, two_crystal_balls_with_step};

#[test]
fn correctly_returns_some() {
    let array = [1, 2, 3, 4, 5];
    assert_eq!(binary_search(&array, 4), Some(3));
}

#[test]
fn correctly_returns_none() {
    let array = [1, 2, 3, 4, 5];
    assert_eq!(binary_search(&array, 0), None);
}

#[test]
fn test_found_match() {
    let array: [u32; 6] = [0, 1, 2, 3, 4, 5];
    assert_eq!(linear_search(&array, 5), Some(5));
}

#[test]
fn test_found_no_match() {
    let array: [u32; 6] = [0, 1, 2, 3, 4, 5];
    assert_eq!(linear_search(&array, 7), None);
}

#[test]
fn correctly_find_break() {
    let array = [false, false, false, true, true, true, true, true, true];
    assert_eq!(two_crystal_balls(&array), Some(3));
}

#[test]
fn correctly_find_no_break() {
    let array = [false, false, false, false];
    assert_eq!(two_crystal_balls(&array), None);
}

#[test]
fn binary_search_finds_every_element_of_an_ascending_array() {
    let array: Vec<u32> = (0..100).map(|i| i * 3 + 1).collect();
    for (i, v) in array.iter().enumerate() {
        assert_eq!(binary_search(&array, *v), Some(i));
        assert_eq!(binary_search(&array, *v + 1), None);
    }
    assert_eq!(binary_search(&array, 0), None);
    assert_eq!(binary_search(&[], 3), None);
}

#[test]
fn binary_search_on_a_single_element() {
    assert_eq!(binary_search(&[7], 7), Some(0));
    assert_eq!(binary_search(&[7], 8), None);
    assert_eq!(binary_search(&[7], 6), None);
}

#[test]
fn linear_search_reports_the_first_occurrence() {
    assert_eq!(linear_search(&[4, 9, 4, 9], 9), Some(1));
    assert_eq!(linear_search(&[4, 9, 4, 9], 4), Some(0));
    assert_eq!(linear_search(&[], 4), None);
}

#[test]
fn floor_sqrt_values() {
    assert_eq!(floor_sqrt(0), 0);
    assert_eq!(floor_sqrt(1), 1);
    assert_eq!(floor_sqrt(3), 1);
    assert_eq!(floor_sqrt(4), 2);
    assert_eq!(floor_sqrt(8), 2);
    assert_eq!(floor_sqrt(9), 3);
    assert_eq!(floor_sqrt(99), 9);
    assert_eq!(floor_sqrt(100), 10);
    assert_eq!(floor_sqrt(1_000_000), 1000);
}

#[test]
fn two_probes_stop_at_the_first_set_flag() {
    let array = [false, false, false, false, true, true, true, true, true];
    assert_eq!(two_crystal_balls(&array), Some(4));
    let array = [false, false, true, true, true, true, true, true, true];
    assert_eq!(two_crystal_balls(&array), Some(2));
    let array = [false, true, true, true, true, true, true, true, true];
    assert_eq!(two_crystal_balls(&array), Some(1));
}

#[test]
fn two_probes_cover_both_ends() {
    let array = [false, false, false, false, false, false, false, true];
    assert_eq!(two_crystal_balls(&array), Some(7));
    assert_eq!(two_crystal_balls(&[true]), Some(0));
    assert_eq!(two_crystal_balls(&[true, true, true, true]), Some(0));
    assert_eq!(two_crystal_balls(&[false]), None);
    assert_eq!(two_crystal_balls(&[false, false, false, false, false]), None);
}

#[test]
fn two_probes_on_the_empty_array() {
    let array: [bool; 0] = [];
    assert_eq!(two_crystal_balls(&array), None);
    assert_eq!(two_crystal_balls_with_step(&array, 3), None);
}

#[test]
fn two_probes_find_every_boundary_with_every_step() {
    for len in 1..40usize {
        for boundary in 0..=len {
            let array: Vec<bool> = (0..len).map(|i| i >= boundary).collect();
            let expected = if boundary < len { Some(boundary) } else { None };
            assert_eq!(two_crystal_balls(&array), expected);
            for step in 1..=len + 1 {
                assert_eq!(two_crystal_balls_with_step(&array, step), expected);
            }
        }
    }
}

#[test]
fn two_probes_report_a_boundary_on_any_flags() {
    let array = [false, true, false, false, true, true, true, true, true];
    assert_eq!(two_crystal_balls(&array), Some(4));
    let array = [true, false, false, true, false, false, false, false, false];
    assert_eq!(two_crystal_balls(&array), Some(0));
    let array = [false, true, false, false, false, false, false, false, false];
    assert_eq!(two_crystal_balls(&array), None);
}
