use ownership_lists::bad_doubly_linked_deque::List;

#[test]
fn deque_front_pushes_come_out_at_the_back_in_order() {
    let mut deque = List::new();
    deque.push_front(1);
    deque.push_front(2);
    assert_eq!(deque.pop_back(), Some(1));
    assert_eq!(deque.pop_back(), Some(2));
    assert_eq!(deque.pop_back(), None);
}

#[test]
fn deque_empty_pops_and_peeks_are_absent() {
    let mut deque: List<u32> = List::new();
    assert_eq!(deque.pop_front(), None);
    assert_eq!(deque.pop_back(), None);
    assert_eq!(deque.peek_front(), None);
    assert_eq!(deque.peek_back(), None);
    deque.push_back(5);
    assert_eq!(deque.pop_front(), Some(5));
    assert_eq!(deque.pop_front(), None);
    assert_eq!(deque.pop_back(), None);
    assert_eq!(deque.peek_front(), None);
    assert_eq!(deque.peek_back(), None);
}

#[test]
fn deque_front_is_a_stack() {
    let mut deque = List::new();
    deque.push_front(1);
    deque.push_front(2);
    deque.push_front(3);
    assert_eq!(deque.peek_front(), Some(&3));
    assert_eq!(deque.peek_back(), Some(&1));
    assert_eq!(deque.pop_front(), Some(3));
    assert_eq!(deque.pop_front(), Some(2));
    deque.push_front(4);
    deque.push_front(5);
    assert_eq!(deque.pop_front(), Some(5));
    assert_eq!(deque.pop_front(), Some(4));
    assert_eq!(deque.pop_front(), Some(1));
    assert_eq!(deque.pop_front(), None);
}

#[test]
fn deque_back_is_a_stack() {
    let mut deque = List::new();
    deque.push_back(1);
    deque.push_back(2);
    deque.push_back(3);
    assert_eq!(deque.peek_back(), Some(&3));
    assert_eq!(deque.peek_front(), Some(&1));
    assert_eq!(deque.pop_back(), Some(3));
    assert_eq!(deque.pop_back(), Some(2));
    assert_eq!(deque.pop_back(), Some(1));
    assert_eq!(deque.pop_back(), None);
}

#[test]
fn deque_matches_a_standard_deque_on_a_mixed_run() {
    let mut deque = List::new();
    let mut model = std::collections::VecDeque::new();
    let mut seed: u32 = 12345;
    for round in 0..2000u32 {
        seed = seed.wrapping_mul(1103515245).wrapping_add(12345);
        match (seed >> 16) % 4 {
            0 => {
                deque.push_front(round);
                model.push_front(round);
            }
            1 => {
                deque.push_back(round);
                model.push_back(round);
            }
            2 => assert_eq!(deque.pop_front(), model.pop_front()),
            _ => assert_eq!(deque.pop_back(), model.pop_back()),
        }
        assert_eq!(deque.peek_front(), model.front());
        assert_eq!(deque.peek_back(), model.back());
    }
    while let Some(expected) = model.pop_front() {
        assert_eq!(deque.pop_front(), Some(expected));
    }
    assert_eq!(deque.pop_front(), None);
    assert_eq!(deque.peek_front(), None);
    assert_eq!(deque.peek_back(), None);
}

#[test]
fn deque_holds_values_that_cannot_be_copied() {
    let mut deque = List::new();
    deque.push_back(String::from("b"));
    deque.push_front(String::from("a"));
    deque.push_back(String::from("c"));
    assert_eq!(deque.pop_front(), Some(String::from("a")));
    assert_eq!(deque.pop_back(), Some(String::from("c")));
    assert_eq!(deque.pop_back(), Some(String::from("b")));
    assert_eq!(deque.pop_back(), None);
}
