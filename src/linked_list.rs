use vstd::prelude::*;

verus! {

struct Node<T> {
    item: T,
    next: Option<Box<Node<T>>>,
}

/// The items reachable from `link`, first node first.
closed spec fn items_of<T>(link: Option<Box<Node<T>>>) -> Seq<T>
    decreases link,
{
    match link {
        None => Seq::empty(),
        Some(node) => seq![node.item] + items_of(node.next),
    }
}

/// The items from `node` on, or none.
closed spec fn items_from<T>(node: Option<&Node<T>>) -> Seq<T> {
    match node {
        None => Seq::empty(),
        Some(n) => seq![n.item] + items_of(n.next),
    }
}

/// A singly linked stack: `push` and `pop` work at the head.
pub struct LinkedList<T> {
    head: Option<Box<Node<T>>>,
}

impl<T> LinkedList<T> {
    /// The items, from the head (the most recently pushed) to the tail.
    pub closed spec fn view(&self) -> Seq<T> {
        items_of(self.head)
    }

    /// An empty list.
    pub fn new() -> (r: Self)
        ensures
            r@ == Seq::<T>::empty(),
    {
        LinkedList { head: None }
    }

    /// Puts `item` at the head.
    pub fn push(&mut self, item: T)
        ensures
            final(self)@ == seq![item] + old(self)@,
    {
        let next = self.head.take();
        self.head = Some(Box::new(Node { item, next }));
    }

    /// Takes the head item off, or returns `None` on an empty list.
    pub fn pop(&mut self) -> (r: Option<T>)
        ensures
            old(self)@.len() == 0 ==> r == None::<T> && final(self)@ == old(self)@,
            old(self)@.len() > 0 ==> r == Some(old(self)@[0]) && final(self)@
                == old(self)@.drop_first(),
    {
        match self.head.take() {
            None => None,
            Some(node) => {
                let node = *node;
                self.head = node.next;
                proof {
                    assert(old(self)@.drop_first() =~= items_of(self.head));
                }
                Some(node.item)
            },
        }
    }

    /// The head item, or `None` on an empty list.
    pub fn peek(&self) -> (r: Option<&T>)
        ensures
            self@.len() == 0 ==> r is None,
            self@.len() > 0 ==> r is Some && *r->Some_0 == self@[0],
    {
        match &self.head {
            None => None,
            Some(node) => Some(&node.item),
        }
    }

    /// A mutable reference to the head item, or `None` on an empty list.
    pub fn peek_mut(&mut self) -> (r: Option<&mut T>)
        ensures
            old(self)@.len() == 0 ==> r is None && final(self)@ == old(self)@,
            old(self)@.len() > 0 ==> r is Some && *r->Some_0 == old(self)@[0] && final(self)@
                == old(self)@.update(0, *final(r->Some_0)),
    {
        match &mut self.head {
            None => None,
            Some(node) => Some(&mut node.item),
        }
    }

    /// Walks the items by shared reference, from the head.
    pub fn iter(&self) -> (r: Iter<'_, T>)
        ensures
            r@ == self@,
    {
        Iter {
            next: match &self.head {
                None => None,
                Some(node) => Some(&**node),
            },
        }
    }

    /// Walks the items by mutable reference, from the head.
    pub fn iter_mut(&mut self) -> (r: IterMut<'_, T>)
        ensures
            r@ == old(self)@,
    {
        IterMut {
            next: match &mut self.head {
                None => None,
                Some(node) => Some(&mut **node),
            },
        }
    }

    /// Hands the items out by value, from the head.
    pub fn into_iter(self) -> (r: IntoIter<T>)
        ensures
            r@ == self@,
    {
        IntoIter(self)
    }
}

impl<T> Drop for LinkedList<T> {
    /// Frees the nodes one at a time, so that a long list does not exhaust the stack.
    fn drop(&mut self)
        opens_invariants none
        no_unwind
    {
        let mut link: Option<Box<Node<T>>> = None;
        std::mem::swap(&mut link, &mut self.head);
        loop
            decreases items_of(link).len(),
        {
            match link {
                Some(node) => {
                    let mut node = *node;
                    let mut rest: Option<Box<Node<T>>> = None;
                    std::mem::swap(&mut rest, &mut node.next);
                    link = rest;
                },
                None => break,
            }
        }
    }
}

/// Walks a list by shared reference.
pub struct Iter<'a, T> {
    next: Option<&'a Node<T>>,
}

impl<'a, T> Iter<'a, T> {
    /// The items not yet handed out.
    pub closed spec fn view(&self) -> Seq<T> {
        items_from(self.next)
    }

    /// The next item, or `None` once all have been handed out.
    pub fn next(&mut self) -> (r: Option<&'a T>)
        ensures
            old(self)@.len() == 0 ==> r is None && final(self)@ == old(self)@,
            old(self)@.len() > 0 ==> r is Some && *r->Some_0 == old(self)@[0] && final(self)@
                == old(self)@.drop_first(),
    {
        match self.next {
            None => None,
            Some(node) => {
                self.next = match &node.next {
                    None => None,
                    Some(n) => Some(&**n),
                };
                proof {
                    assert(old(self)@.drop_first() =~= items_from(self.next));
                }
                Some(&node.item)
            },
        }
    }
}

/// Walks a list by mutable reference.
pub struct IterMut<'a, T> {
    next: Option<&'a mut Node<T>>,
}

impl<'a, T> IterMut<'a, T> {
    /// The current values of the items not yet handed out.
    pub closed spec fn view(&self) -> Seq<T> {
        match self.next {
            None => Seq::empty(),
            Some(n) => seq![n.item] + items_of(n.next),
        }
    }

    /// The next item, or `None` once all have been handed out.
    pub fn next(&mut self) -> (r: Option<&'a mut T>)
        ensures
            old(self)@.len() == 0 ==> r is None && final(self)@ == old(self)@,
            old(self)@.len() > 0 ==> r is Some && *r->Some_0 == old(self)@[0] && final(self)@
                == old(self)@.drop_first(),
    {
        match self.next.take() {
            None => None,
            Some(node) => {
                self.next = match &mut node.next {
                    None => None,
                    Some(n) => Some(&mut **n),
                };
                Some(&mut node.item)
            },
        }
    }
}

/// Hands the items of a list out by value.
pub struct IntoIter<T>(LinkedList<T>);

impl<T> IntoIter<T> {
    /// The items not yet handed out.
    pub closed spec fn view(&self) -> Seq<T> {
        self.0@
    }

    /// The next item, or `None` once all have been handed out.
    pub fn next(&mut self) -> (r: Option<T>)
        ensures
            old(self)@.len() == 0 ==> r == None::<T> && final(self)@ == old(self)@,
            old(self)@.len() > 0 ==> r == Some(old(self)@[0]) && final(self)@
                == old(self)@.drop_first(),
    {
        self.0.pop()
    }
}

} // verus!
