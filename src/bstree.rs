use vstd::prelude::*;
use vstd::multiset::Multiset;
use vstd::std_specs::cmp::OrdSpec;
use core::cmp::Ordering;

verus! {

/// `T`'s `cmp` follows its specification and is a total order in which
/// `Equal` means identical.
pub open spec fn total_order<T: Ord>() -> bool {
    &&& T::obeys_cmp_spec()
    &&& forall|x: T, y: T| #[trigger] x.cmp_spec(&y) == Ordering::Equal <==> x == y
    &&& forall|x: T, y: T| #[trigger] x.cmp_spec(&y) == Ordering::Less <==> y.cmp_spec(&x) == Ordering::Greater
    &&& forall|x: T, y: T, z: T|
        #[trigger] x.cmp_spec(&y) == Ordering::Less && #[trigger] y.cmp_spec(&z) == Ordering::Less
            ==> x.cmp_spec(&z) == Ordering::Less
}

/// `a` sorts no later than `b`.
pub open spec fn le<T: Ord>(a: T, b: T) -> bool {
    a.cmp_spec(&b) != Ordering::Greater
}

proof fn lemma_le_trans<T: Ord>(x: T, y: T, z: T)
    requires
        total_order::<T>(),
        le(x, y),
        le(y, z),
    ensures
        le(x, z),
{
    if x.cmp_spec(&z) == Ordering::Greater {
        assert(z.cmp_spec(&x) == Ordering::Less);
        if x == y {
        } else if y == z {
        } else {
            assert(x.cmp_spec(&y) == Ordering::Less);
            assert(y.cmp_spec(&z) == Ordering::Less);
        }
    }
}

struct Node<T> {
    value: T,
    left: Option<Box<Node<T>>>,
    right: Option<Box<Node<T>>>,
}

type Link<T> = Option<Box<Node<T>>>;

/// The values stored under `link`, with their multiplicities.
closed spec fn values<T>(link: Link<T>) -> Multiset<T>
    decreases link,
{
    match link {
        None => Multiset::empty(),
        Some(n) => values(n.left).add(values(n.right)).insert(n.value),
    }
}

/// Every node sorts no earlier than its left subtree and no later than its right one.
closed spec fn ordered<T: Ord>(link: Link<T>) -> bool
    decreases link,
{
    match link {
        None => true,
        Some(n) => {
            &&& ordered(n.left)
            &&& ordered(n.right)
            &&& forall|x: T| #[trigger] values(n.left).contains(x) ==> le(x, n.value)
            &&& forall|x: T| #[trigger] values(n.right).contains(x) ==> le(n.value, x)
        },
    }
}

fn contains_in<T: Ord>(link: &Link<T>, value: &T) -> (r: bool)
    requires
        total_order::<T>(),
        ordered(*link),
    ensures
        r == values(*link).contains(*value),
    decreases *link,
{
    match link {
        None => false,
        Some(node) => {
            match value.cmp(&node.value) {
                Ordering::Equal => true,
                Ordering::Greater => {
                    let r = contains_in(&node.right, value);
                    proof {
                        if values(node.left).contains(*value) {
                            assert(le(*value, node.value));
                        }
                    }
                    r
                },
                Ordering::Less => {
                    let r = contains_in(&node.left, value);
                    proof {
                        if values(node.right).contains(*value) {
                            assert(le(node.value, *value));
                        }
                    }
                    r
                },
            }
        },
    }
}

fn insert_into<T: Ord>(link: Link<T>, value: T) -> (r: Link<T>)
    requires
        total_order::<T>(),
        ordered(link),
    ensures
        ordered(r),
        values(r) == values(link).insert(value),
    decreases link,
{
    match link {
        None => {
            let r = Some(Box::new(Node { value, left: None, right: None }));
            proof {
                assert(values(r) =~= Multiset::empty().insert(value));
            }
            r
        },
        Some(node) => {
            let node = *node;
            let ghost old_left = values(node.left);
            let ghost old_right = values(node.right);
            if matches!(value.cmp(&node.value), Ordering::Greater) {
                let right = insert_into(node.right, value);
                let r = Some(Box::new(Node { value: node.value, left: node.left, right }));
                proof {
                    assert forall|x: T| #[trigger] values(right).contains(x) implies le(node.value, x) by {
                        if x != value {
                            assert(old_right.contains(x));
                        }
                    }
                    assert(values(r) =~= values(link).insert(value));
                }
                r
            } else {
                let left = insert_into(node.left, value);
                let r = Some(Box::new(Node { value: node.value, left, right: node.right }));
                proof {
                    assert forall|x: T| #[trigger] values(left).contains(x) implies le(x, node.value) by {
                        if x != value {
                            assert(old_left.contains(x));
                        }
                    }
                    assert(values(r) =~= values(link).insert(value));
                }
                r
            }
        },
    }
}

/// Takes the leftmost (least) value out of a non-empty tree.
fn take_min<T: Ord>(node: Box<Node<T>>) -> (r: (Link<T>, T))
    requires
        total_order::<T>(),
        ordered(Some(node)),
    ensures
        ordered(r.0),
        values(Some(node)) == values(r.0).insert(r.1),
        forall|x: T| #[trigger] values(r.0).contains(x) ==> le(r.1, x),
    decreases node,
{
    let ghost whole = values(Some(node));
    let node = *node;
    match node.left {
        None => {
            let r = (node.right, node.value);
            proof {
                assert(values(node.left) =~= Multiset::empty());
                assert(whole =~= values(r.0).insert(r.1));
            }
            r
        },
        Some(left) => {
            let ghost old_left = values(Some(left));
            let (rest, min) = take_min(left);
            let ghost right_vals = values(node.right);
            let r = (Some(Box::new(Node { value: node.value, left: rest, right: node.right })), min);
            proof {
                assert(old_left.contains(min));
                assert(le(min, node.value));
                assert forall|x: T| #[trigger] values(r.0).contains(x) implies le(min, x) by {
                    if values(rest).contains(x) {
                    } else if right_vals.contains(x) {
                        lemma_le_trans(min, node.value, x);
                    } else {
                        assert(x == node.value);
                    }
                }
                assert forall|x: T| #[trigger] values(rest).contains(x) implies le(x, node.value) by {
                    assert(old_left.contains(x));
                }
                assert(whole =~= values(r.0).insert(r.1));
            }
            r
        },
    }
}

fn remove_from<T: Ord>(link: Link<T>, value: &T) -> (r: (Link<T>, bool))
    requires
        total_order::<T>(),
        ordered(link),
    ensures
        ordered(r.0),
        r.1 == values(link).contains(*value),
        r.1 ==> values(r.0) == values(link).remove(*value),
        !r.1 ==> values(r.0) == values(link),
    decreases link,
{
    match link {
        None => (None, false),
        Some(node) => {
            let node = *node;
            let ghost old_left = values(node.left);
            let ghost old_right = values(node.right);
            match value.cmp(&node.value) {
                Ordering::Greater => {
                    let (right, found) = remove_from(node.right, value);
                    let r = Some(Box::new(Node { value: node.value, left: node.left, right }));
                    proof {
                        if old_left.contains(*value) {
                            assert(le(*value, node.value));
                        }
                        assert forall|x: T| #[trigger] values(right).contains(x) implies le(node.value, x) by {
                            assert(old_right.contains(x));
                        }
                        if found {
                            assert(values(r) =~= values(link).remove(*value));
                        } else {
                            assert(values(r) =~= values(link));
                        }
                    }
                    (r, found)
                },
                Ordering::Less => {
                    let (left, found) = remove_from(node.left, value);
                    let r = Some(Box::new(Node { value: node.value, left, right: node.right }));
                    proof {
                        if old_right.contains(*value) {
                            assert(le(node.value, *value));
                        }
                        assert forall|x: T| #[trigger] values(left).contains(x) implies le(x, node.value) by {
                            assert(old_left.contains(x));
                        }
                        if found {
                            assert(values(r) =~= values(link).remove(*value));
                        } else {
                            assert(values(r) =~= values(link));
                        }
                    }
                    (r, found)
                },
                Ordering::Equal => {
                    match (node.left, node.right) {
                        (None, right) => {
                            proof {
                                assert(values(right) =~= values(link).remove(*value));
                            }
                            (right, true)
                        },
                        (Some(left), None) => {
                            proof {
                                assert(values(Some(left)) =~= values(link).remove(*value));
                            }
                            (Some(left), true)
                        },
                        (Some(left), Some(right)) => {
                            let ghost left_vals = values(Some(left));
                            let ghost right_vals = values(Some(right));
                            let (rest, min) = take_min(right);
                            let r = Some(Box::new(Node { value: min, left: Some(left), right: rest }));
                            proof {
                                assert(right_vals.contains(min));
                                assert(le(node.value, min));
                                assert forall|x: T| #[trigger] left_vals.contains(x) implies le(x, min) by {
                                    lemma_le_trans(x, node.value, min);
                                }
                                assert(values(r) =~= values(link).remove(*value));
                            }
                            (r, true)
                        },
                    }
                },
            }
        },
    }
}

/// An unbalanced binary search tree. A value equal to one already present is
/// stored again, in the left subtree.
pub struct BSTree<T> {
    root: Link<T>,
}

impl<T: Ord> BSTree<T> {
    /// The stored values, with their multiplicities.
    pub closed spec fn view(&self) -> Multiset<T> {
        values(self.root)
    }

    /// The search order holds throughout the tree.
    pub closed spec fn wf(&self) -> bool {
        ordered(self.root)
    }

    /// An empty tree.
    pub fn new() -> (r: Self)
        ensures
            r.wf(),
            r@ == Multiset::<T>::empty(),
    {
        BSTree { root: None }
    }

    /// Adds one occurrence of `value`.
    pub fn insert(&mut self, value: T)
        requires
            total_order::<T>(),
            old(self).wf(),
        ensures
            final(self).wf(),
            final(self)@ == old(self)@.insert(value),
    {
        let root = self.root.take();
        self.root = insert_into(root, value);
    }

    /// Whether `value` is stored.
    pub fn contains(&self, value: T) -> (r: bool)
        requires
            total_order::<T>(),
            self.wf(),
        ensures
            r == self@.contains(value),
    {
        contains_in(&self.root, &value)
    }

    /// Removes one occurrence of `value`; false, with the tree unchanged, when
    /// there is none.
    pub fn remove(&mut self, value: T) -> (r: bool)
        requires
            total_order::<T>(),
            old(self).wf(),
        ensures
            final(self).wf(),
            r == old(self)@.contains(value),
            r ==> final(self)@ == old(self)@.remove(value),
            !r ==> final(self)@ == old(self)@,
    {
        let root = self.root.take();
        let (root, found) = remove_from(root, &value);
        self.root = root;
        found
    }
}

} // verus!
