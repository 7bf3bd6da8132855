use data_structures::bstree::BSTree;

#[test]
fn empty() {
    let tree: BSTree<i32> = BSTree::new();
    assert!(!tree.contains(1));
}

#[test]
fn tree_insert() {
    let mut tree: BSTree<i32> = BSTree::new();
    let items = [5, 3, 1, 6, 4];
    items.iter().for_each(|item| tree.insert(*item));
    items.iter().for_each(|item| assert!(tree.contains(*item)));
}

#[test]
fn remove_leaf() {
    let mut tree: BSTree<i32> = BSTree::new();
    let items = [5, 3, 1, 6, 4];
    items.iter().for_each(|item| tree.insert(*item));
    tree.remove(4);
    assert!(!tree.contains(4));
}

#[test]
fn remove_node_with_one_child() {
    let mut tree: BSTree<i32> = BSTree::new();
    let items = [5, 1, 7, 2];
    items.iter().for_each(|item| tree.insert(*item));
    tree.remove(1);
    assert!(!tree.contains(1));
}

#[test]
fn remove_node_with_child_successor() {
    let mut tree: BSTree<i32> = BSTree::new();
    let items = [7, 6, 8];
    items.iter().for_each(|item| tree.insert(*item));
    tree.remove(7);
    assert!(!tree.contains(7));
    assert!(tree.contains(6));
    assert!(tree.contains(8));
}

#[test]
fn remove_node_with_non_child_successor() {
    let mut tree: BSTree<i32> = BSTree::new();
    let items = [3, 1, 5, 4, 6];
    items.iter().for_each(|item| tree.insert(*item));
    tree.remove(3);
    assert!(!tree.contains(3));
    assert!(tree.contains(1));
    assert!(tree.contains(5));
    assert!(tree.contains(4));
    assert!(tree.contains(6));
}

#[test]
fn remove_absent_value_reports_false() {
    let mut tree: BSTree<i32> = BSTree::new();
    assert!(!tree.remove(1));
    tree.insert(2);
    assert!(!tree.remove(1));
    assert!(tree.contains(2));
    assert!(tree.remove(2));
    assert!(!tree.contains(2));
}

#[test]
fn duplicate_values_are_removed_one_at_a_time() {
    let mut tree: BSTree<i32> = BSTree::new();
    tree.insert(5);
    tree.insert(5);
    tree.insert(3);
    assert!(tree.remove(5));
    assert!(tree.contains(5));
    assert!(tree.remove(5));
    assert!(!tree.contains(5));
    assert!(tree.contains(3));
}

#[test]
fn remove_root_keeps_other_values() {
    let mut tree: BSTree<i32> = BSTree::new();
    let items = [50, 30, 70, 20, 40, 60, 80, 65];
    items.iter().for_each(|item| tree.insert(*item));
    assert!(tree.remove(50));
    assert!(tree.remove(60));
    for item in [30, 70, 20, 40, 80, 65] {
        assert!(tree.contains(item));
    }
    assert!(!tree.contains(50));
    assert!(!tree.contains(60));
}
