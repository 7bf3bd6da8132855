use data_structures::linked_list::LinkedList;

#[test]
fn push_pop() {
    let mut list = LinkedList::new();
    (0..10).for_each(|n| list.push(n));
    (0..10).rev().for_each(|n| assert_eq!(list.pop(), Some(n)));
    assert_eq!(list.pop(), None);
}

#[test]
fn peek() {
    let mut list = LinkedList::new();
    list.push(1);
    list.push(2);
    assert_eq!(list.peek(), Some(&2));
    list.peek_mut().map(|item| *item = 3);
    assert_eq!(list.peek(), Some(&3));
}

#[test]
fn iter() {
    let mut list = LinkedList::new();
    (0..10).for_each(|n| list.push(n));
    let mut it = list.iter();
    for x in (0..10).rev() {
        assert_eq!(it.next(), Some(&x));
    }
    assert_eq!(it.next(), None);
    let mut it = list.iter_mut();
    while let Some(item) = it.next() {
        *item = 0;
    }
    let mut sum: u32 = 0;
    let mut it = list.iter();
    while let Some(item) = it.next() {
        sum += *item;
    }
    assert_eq!(sum, 0);
}

#[test]
fn peek_on_empty_list() {
    let mut list: LinkedList<u32> = LinkedList::new();
    assert_eq!(list.peek(), None);
    assert!(list.peek_mut().is_none());
    assert_eq!(list.pop(), None);
}

#[test]
fn into_iter_hands_out_head_first() {
    let mut list = LinkedList::new();
    list.push(1);
    list.push(5);
    let mut it = list.into_iter();
    assert_eq!(it.next(), Some(5));
    assert_eq!(it.next(), Some(1));
    assert_eq!(it.next(), None);
}

#[test]
fn iter_mut_changes_every_item() {
    let mut list = LinkedList::new();
    list.push(1);
    list.push(2);
    list.push(3);
    let mut it = list.iter_mut();
    while let Some(item) = it.next() {
        *item *= 10;
    }
    assert_eq!(list.pop(), Some(30));
    assert_eq!(list.pop(), Some(20));
    assert_eq!(list.pop(), Some(10));
}

#[test]
fn long_list_drops() {
    let mut list = LinkedList::new();
    for i in 0..100_000u32 {
        list.push(i);
    }
    assert_eq!(list.peek(), Some(&99_999));
}
