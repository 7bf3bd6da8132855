use data_structures::vec::Vec;

#[test]
fn push_pop_one() {
    let mut vec = Vec::new();
    vec.push(1);
    assert_eq!(vec.pop(), Some(1));
}

#[test]
fn push_pop_four() {
    let mut vec = Vec::new();
    vec.push(1);
    assert_eq!(vec.capacity(), 1);
    vec.push(2);
    assert_eq!(vec.capacity(), 2);
    vec.push(3);
    assert_eq!(vec.capacity(), 4);
    vec.push(4);
    assert_eq!(vec.capacity(), 4);
    assert_eq!(vec.pop(), Some(4));
    assert_eq!(vec.pop(), Some(3));
    assert_eq!(vec.pop(), Some(2));
    assert_eq!(vec.pop(), Some(1));
}

#[test]
fn deref() {
    let mut vec = Vec::from_slice([1, 2, 3].as_slice());
    assert_eq!(vec.as_slice()[0], 1);
    vec.as_mut_slice()[0] = 2;
    assert_eq!(vec.as_slice()[0], 2);
    assert_eq!(vec.as_slice()[1..=2], [2, 3]);
}

#[test]
fn mod_insert() {
    let mut vec = Vec::from_slice([1, 2, 3].as_slice());
    vec.insert(1, 5);
    assert_eq!(vec.len(), 4);
    assert_eq!(vec.as_slice()[0], 1);
    assert_eq!(vec.as_slice()[1], 5);
    assert_eq!(vec.as_slice()[2], 2);
    assert_eq!(vec.as_slice()[3], 3);
}

#[test]
fn remove() {
    let mut vec = Vec::from_slice([1, 2, 3, 4, 5].as_slice());
    assert_eq!(vec.remove(2), 3);
    assert_eq!(vec.len(), 4);
    assert_eq!(vec.as_slice()[0], 1);
    assert_eq!(vec.as_slice()[1], 2);
    assert_eq!(vec.as_slice()[2], 4);
    assert_eq!(vec.as_slice()[3], 5);
}

#[test]
fn new_vec_is_empty_without_room() {
    let mut vec: Vec<u8> = Vec::new();
    assert_eq!(vec.len(), 0);
    assert_eq!(vec.capacity(), 0);
    assert_eq!(vec.pop(), None);
}

#[test]
fn reserve_sets_capacity_but_never_below_len() {
    let mut vec = Vec::from_slice([1u8, 2, 3].as_slice());
    assert_eq!(vec.capacity(), 3);
    vec.reserve(10);
    assert_eq!(vec.capacity(), 10);
    vec.reserve(1);
    assert_eq!(vec.capacity(), 3);
    assert_eq!(vec.as_slice(), [1, 2, 3]);
}

#[test]
fn insert_into_empty_grows_to_one() {
    let mut vec = Vec::new();
    vec.insert(0, 9u8);
    assert_eq!(vec.capacity(), 1);
    vec.insert(0, 8);
    assert_eq!(vec.capacity(), 2);
    assert_eq!(vec.as_slice(), [8, 9]);
}

#[test]
fn pop_keeps_capacity() {
    let mut vec = Vec::new();
    vec.push(1u8);
    vec.push(2);
    vec.push(3);
    assert_eq!(vec.pop(), Some(3));
    assert_eq!(vec.capacity(), 4);
    assert_eq!(vec.len(), 2);
}
