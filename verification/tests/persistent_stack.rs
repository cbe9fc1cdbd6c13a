use ownership_lists::persistent_stack::List;

#[test]
fn persistent_stack_basics() {
    let list = List::new();
    assert_eq!(list.head(), None);

    let list = list.prepend(1).prepend(2).prepend(3);
    assert_eq!(list.head(), Some(&3));

    let list = list.tail();
    assert_eq!(list.head(), Some(&2));

    let list = list.tail();
    assert_eq!(list.head(), Some(&1));

    let list = list.tail();
    assert_eq!(list.head(), None);

    let list = list.tail();
    assert_eq!(list.head(), None);
}

#[test]
fn persistent_stack_iter() {
    let list = List::new().prepend(1).prepend(2).prepend(3);

    let mut iter = list.iter();
    assert_eq!(iter.next(), Some(&3));
    assert_eq!(iter.next(), Some(&2));
    assert_eq!(iter.next(), Some(&1));
}

fn contents(list: &List<u32>) -> Vec<u32> {
    let mut out = Vec::new();
    let mut iter = list.iter();
    while let Some(v) = iter.next() {
        out.push(*v);
    }
    out
}

#[test]
fn persistent_tail_of_prepend_is_the_list() {
    let base = List::new().prepend(1).prepend(2);
    let longer = base.prepend(9);
    assert_eq!(contents(&longer), vec![9, 2, 1]);
    assert_eq!(contents(&longer.tail()), vec![2, 1]);
    assert_eq!(contents(&base), vec![2, 1]);
}

#[test]
fn persistent_branches_do_not_disturb_each_other() {
    let base = List::new().prepend(1).prepend(2);
    let left = base.prepend(10);
    let right = base.prepend(20);
    assert_eq!(contents(&left.tail()), contents(&base));
    assert_eq!(contents(&right.tail()), contents(&base));
    let left_more = left.prepend(11);
    assert_eq!(contents(&left_more), vec![11, 10, 2, 1]);
    assert_eq!(contents(&right), vec![20, 2, 1]);
    assert_eq!(contents(&left), vec![10, 2, 1]);
    drop(left_more);
    drop(left);
    assert_eq!(contents(&right), vec![20, 2, 1]);
    assert_eq!(contents(&base), vec![2, 1]);
}

#[test]
fn persistent_tail_past_the_end_stays_empty() {
    let list: List<u32> = List::new();
    let t = list.tail().tail().tail();
    assert_eq!(t.head(), None);
    assert_eq!(contents(&t), Vec::<u32>::new());
}

#[test]
fn persistent_release_keeps_shared_suffix() {
    let base = List::new().prepend(1).prepend(2);
    let branch = base.prepend(3).prepend(4);
    assert_eq!(contents(&branch), vec![4, 3, 2, 1]);
    drop(branch);
    assert_eq!(contents(&base), vec![2, 1]);
    assert_eq!(base.head(), Some(&2));
}

#[test]
fn persistent_long_chain_is_released() {
    let mut list = List::new();
    for i in 0..200_000u32 {
        list = list.prepend(i);
    }
    assert_eq!(list.head(), Some(&199_999));
    drop(list);
}
