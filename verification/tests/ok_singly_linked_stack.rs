use ownership_lists::ok_singly_linked_stack::List;

#[test]
fn ok_singly_linked_stack_basics() {
    let mut list = List::new();

    assert_eq!(list.pop(), None);

    list.push(1);
    list.push(2);
    list.push(3);

    assert_eq!(list.pop(), Some(3));
    assert_eq!(list.pop(), Some(2));
    assert_eq!(list.pop(), Some(1));

    assert_eq!(list.pop(), None);

    list.push(4);
    list.push(5);

    assert_eq!(list.pop(), Some(5));
    assert_eq!(list.pop(), Some(4));
}

#[test]
fn peek() {
    let mut list = List::new();
    assert_eq!(list.peek(), None);
    assert_eq!(list.peek_mut(), None);
    list.push(1);
    list.push(2);
    list.push(3);

    assert_eq!(list.peek(), Some(&3));
    assert_eq!(list.peek_mut(), Some(&mut 3));
    list.peek_mut().map(|value| *value = 42);
    assert_eq!(list.peek(), Some(&42));
    assert_eq!(list.pop(), Some(42));
}

#[test]
fn into_iter() {
    let mut list = List::new();
    list.push(1);
    list.push(2);
    list.push(3);

    let mut iter = list.into_iter();
    assert_eq!(iter.next(), Some(3));
    assert_eq!(iter.next(), Some(2));
    assert_eq!(iter.next(), Some(1));
    assert_eq!(iter.next(), None);
}

#[test]
fn ok_singly_linked_stack_iter() {
    let mut list = List::new();
    list.push(1);
    list.push(2);
    list.push(3);

    let mut iter = list.iter();
    assert_eq!(iter.next(), Some(&3));
    assert_eq!(iter.next(), Some(&2));
    assert_eq!(iter.next(), Some(&1));
}

#[test]
fn stack_pops_in_reverse_of_pushes() {
    let pushed: Vec<u32> = vec![10, 20, 30, 40, 50];
    let mut list = List::new();
    for v in pushed.iter() {
        list.push(*v);
    }
    let mut popped: Vec<u32> = Vec::new();
    for _ in 0..pushed.len() {
        popped.push(list.pop().unwrap());
    }
    assert_eq!(popped, vec![50, 40, 30, 20, 10]);
    assert_eq!(list.pop(), None);
    assert_eq!(list.peek(), None);
}

#[test]
fn stack_iter_restarts_and_leaves_content() {
    let mut list = List::new();
    list.push(1);
    list.push(2);
    let mut first = list.iter();
    assert_eq!(first.next(), Some(&2));
    assert_eq!(first.next(), Some(&1));
    assert_eq!(first.next(), None);
    assert_eq!(first.next(), None);
    let mut second = list.iter();
    assert_eq!(second.next(), Some(&2));
    assert_eq!(list.pop(), Some(2));
    assert_eq!(list.pop(), Some(1));
}

#[test]
fn stack_long_chain_is_released() {
    let mut list = List::new();
    for i in 0..200_000u32 {
        list.push(i);
    }
    assert_eq!(list.peek(), Some(&199_999));
    drop(list);
}
