use vstd::prelude::*;

verus! {

/// Capacity that a full vector of `len` items grows to: one slot for an
/// empty vector, twice the length otherwise.
pub open spec fn grown_capacity(len: nat) -> nat {
    if len == 0 {
        1
    } else {
        2 * len
    }
}

/// A growable array that keeps its own capacity: it grows only when full,
/// to `grown_capacity` of its length, or when asked to by `reserve`.
pub struct Vec<T> {
    items: std::vec::Vec<T>,
    cap: usize,
}

impl<T> Vec<T> {
    /// The items, in index order.
    pub closed spec fn view(&self) -> Seq<T> {
        self.items@
    }

    /// The number of items the vector has room for without growing.
    pub closed spec fn capacity_spec(&self) -> nat {
        self.cap as nat
    }

    /// The items never outnumber the capacity.
    pub closed spec fn wf(&self) -> bool {
        self.items@.len() <= self.cap
    }

    /// An empty vector with no room reserved.
    pub fn new() -> (r: Self)
        ensures
            r.wf(),
            r@ == Seq::<T>::empty(),
            r.capacity_spec() == 0,
    {
        Vec { items: std::vec::Vec::new(), cap: 0 }
    }

    /// Sets the capacity to `new_cap` and reserves the room in storage.
    fn grow(&mut self, new_cap: usize)
        requires
            old(self)@.len() <= new_cap,
        ensures
            final(self).wf(),
            final(self)@ == old(self)@,
            final(self).capacity_spec() == new_cap,
    {
        let additional = new_cap - self.items.len();
        self.items.reserve(additional);
        self.cap = new_cap;
    }

    /// Appends `item`, first growing a full vector.
    pub fn push(&mut self, item: T)
        requires
            old(self).wf(),
            old(self)@.len() < old(self).capacity_spec() || old(self)@.len() <= usize::MAX / 2,
        ensures
            final(self).wf(),
            final(self)@ == old(self)@.push(item),
            final(self).capacity_spec() == if old(self)@.len() == old(self).capacity_spec() {
                grown_capacity(old(self)@.len())
            } else {
                old(self).capacity_spec()
            },
    {
        let len = self.items.len();
        if len == self.cap {
            if len == 0 {
                self.grow(1);
            } else {
                self.grow(len * 2);
            }
        }
        self.items.push(item);
    }

    /// Removes and returns the last item, or `None` when empty. The capacity stays.
    pub fn pop(&mut self) -> (r: Option<T>)
        requires
            old(self).wf(),
        ensures
            final(self).wf(),
            final(self).capacity_spec() == old(self).capacity_spec(),
            old(self)@.len() == 0 ==> r == None::<T> && final(self)@ == old(self)@,
            old(self)@.len() > 0 ==> r == Some(old(self)@.last()) && final(self)@
                == old(self)@.drop_last(),
    {
        self.items.pop()
    }

    /// Puts `item` at `index`, shifting the later items up, first growing a
    /// full vector.
    pub fn insert(&mut self, index: usize, item: T)
        requires
            old(self).wf(),
            index <= old(self)@.len(),
            old(self)@.len() < old(self).capacity_spec() || old(self)@.len() <= usize::MAX / 2,
        ensures
            final(self).wf(),
            final(self)@ == old(self)@.insert(index as int, item),
            final(self).capacity_spec() == if old(self)@.len() == old(self).capacity_spec() {
                grown_capacity(old(self)@.len())
            } else {
                old(self).capacity_spec()
            },
    {
        let len = self.items.len();
        if len == self.cap {
            if len == 0 {
                self.grow(1);
            } else {
                self.grow(len * 2);
            }
        }
        self.items.insert(index, item);
    }

    /// Takes out the item at `index`, shifting the later items down.
    pub fn remove(&mut self, index: usize) -> (r: T)
        requires
            old(self).wf(),
            index < old(self)@.len(),
        ensures
            final(self).wf(),
            final(self).capacity_spec() == old(self).capacity_spec(),
            r == old(self)@[index as int],
            final(self)@ == old(self)@.remove(index as int),
    {
        self.items.remove(index)
    }

    /// Number of items.
    pub fn len(&self) -> (r: usize)
        ensures
            r == self@.len(),
    {
        self.items.len()
    }

    /// Number of items the vector has room for without growing.
    pub fn capacity(&self) -> (r: usize)
        ensures
            r == self.capacity_spec(),
    {
        self.cap
    }

    /// Sets the capacity to `len`, or to the number of items if that is larger.
    pub fn reserve(&mut self, len: usize)
        requires
            old(self).wf(),
        ensures
            final(self).wf(),
            final(self)@ == old(self)@,
            final(self).capacity_spec() == if len >= old(self)@.len() {
                len as nat
            } else {
                old(self)@.len()
            },
    {
        let n = self.items.len();
        if len >= n {
            self.grow(len);
        } else {
            self.grow(n);
        }
    }

    /// The items as a slice.
    pub fn as_slice(&self) -> (r: &[T])
        ensures
            r@ == self@,
    {
        self.items.as_slice()
    }

    /// The items as a mutable slice: its length is fixed, its items can change.
    pub fn as_mut_slice(&mut self) -> (r: &mut [T])
        ensures
            r@ == old(self)@,
            final(self)@ == final(r)@,
            final(self).capacity_spec() == old(self).capacity_spec(),
    {
        self.items.as_mut_slice()
    }
}

impl<T: Copy> Vec<T> {
    /// A vector holding a copy of each item of `slice`, with capacity equal to its length.
    pub fn from_slice(slice: &[T]) -> (r: Self)
        ensures
            r.wf(),
            r@ == slice@,
            r.capacity_spec() == slice@.len(),
    {
        let mut v = Vec::new();
        v.grow(slice.len());
        let mut i: usize = 0;
        while i < slice.len()
            invariant
                i <= slice@.len(),
                v.wf(),
                v@ == slice@.take(i as int),
                v.capacity_spec() == slice@.len(),
            decreases slice@.len() - i,
        {
            v.push(slice[i]);
            assert(slice@.take(i as int).push(slice@[i as int]) =~= slice@.take(i + 1));
            i = i + 1;
        }
        assert(slice@.take(slice@.len() as int) =~= slice@);
        v
    }
}

} // verus!
