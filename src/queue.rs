use vstd::prelude::*;

verus! {

/// The one error a non-blocking enqueue reports.
#[derive(Debug, PartialEq, Eq, Structural)]
pub enum BoundedQueueError {
    Full,
}

/// Physical slot that follows `k`, for a ring of `n` slots, without `%`.
pub open spec fn wrap(k: int, n: int) -> int {
    if k >= n {
        k - n
    } else {
        k
    }
}

/// Contents after an enqueue of `item` on a queue holding `contents` with room for `cap`.
pub open spec fn after_enqueue<T>(contents: Seq<T>, cap: nat, item: T) -> Seq<T> {
    if contents.len() < cap {
        contents.push(item)
    } else {
        contents
    }
}

/// What a dequeue returns on a queue holding `contents`, and what is left.
pub open spec fn take_front<T>(contents: Seq<T>) -> (Option<T>, Seq<T>) {
    if contents.len() == 0 {
        (None, contents)
    } else {
        (Some(contents[0]), contents.drop_first())
    }
}

/// A fixed-capacity FIFO over a ring of `capacity + 1` slots, with a write
/// cursor (`front`) and a read cursor (`rear`). Empty when the cursors meet,
/// full when `front` is one slot behind `rear`.
pub struct BoundedQueue<T> {
    slots: Vec<Option<T>>,
    front: usize,
    rear: usize,
}

impl<T> BoundedQueue<T> {
    /// Number of live items: `(front - rear) mod slots`.
    pub closed spec fn count(&self) -> nat {
        let n = self.slots@.len() as int;
        if self.front >= self.rear {
            (self.front - self.rear) as nat
        } else {
            (self.front + n - self.rear) as nat
        }
    }

    /// How many items the queue can hold at once.
    pub closed spec fn capacity_spec(&self) -> nat {
        (self.slots@.len() - 1) as nat
    }

    /// The live items, oldest first.
    pub closed spec fn view(&self) -> Seq<T> {
        Seq::new(
            self.count(),
            |j: int| self.slots@[wrap(self.rear + j, self.slots@.len() as int)]->Some_0,
        )
    }

    /// Cursors inside the ring, and every live slot filled.
    pub closed spec fn wf(&self) -> bool {
        let n = self.slots@.len() as int;
        &&& n >= 1
        &&& self.front < n
        &&& self.rear < n
        &&& forall|j: int| 0 <= j < self.count() ==> (#[trigger] self.slots@[wrap(self.rear + j, n)]) is Some
    }

    /// A queue with room for `capacity` items, initially empty.
    pub fn new(capacity: usize) -> (r: Self)
        requires
            capacity < usize::MAX,
        ensures
            r.wf(),
            r@ == Seq::<T>::empty(),
            r.capacity_spec() == capacity,
    {
        let mut slots: Vec<Option<T>> = Vec::new();
        let mut i: usize = 0;
        while i <= capacity
            invariant
                i <= capacity + 1,
                capacity < usize::MAX,
                slots@.len() == i,
            decreases capacity + 1 - i,
        {
            slots.push(None);
            i = i + 1;
        }
        let r = BoundedQueue { slots, front: 0, rear: 0 };
        assert(r.count() == 0);
        assert(r@ =~= Seq::<T>::empty());
        r
    }

    /// However the queue was used, it holds no more items than its capacity.
    pub proof fn lemma_len_within_capacity(&self)
        requires
            self.wf(),
        ensures
            self@.len() <= self.capacity_spec(),
    {
    }

    /// How many items the queue can hold at once.
    pub fn capacity(&self) -> (r: usize)
        requires
            self.wf(),
        ensures
            r == self.capacity_spec(),
    {
        self.slots.len() - 1
    }

    /// Number of items in the queue.
    pub fn len(&self) -> (r: usize)
        requires
            self.wf(),
        ensures
            r == self@.len(),
            r <= self.capacity_spec(),
    {
        if self.front >= self.rear {
            self.front - self.rear
        } else {
            self.slots.len() - self.rear + self.front
        }
    }

    /// True when no item is held.
    pub fn is_empty(&self) -> (r: bool)
        requires
            self.wf(),
        ensures
            r == (self@.len() == 0),
    {
        self.front == self.rear
    }

    /// True when no further item is accepted.
    pub fn is_full(&self) -> (r: bool)
        requires
            self.wf(),
        ensures
            r == (self@.len() == self.capacity_spec()),
    {
        self.next(self.front) == self.rear
    }

    /// The slot after `k`, wrapping at the end of the ring.
    fn next(&self, k: usize) -> (r: usize)
        requires
            k < self.slots@.len(),
        ensures
            r == wrap(k + 1, self.slots@.len() as int),
    {
        let n = self.slots.len();
        if k + 1 == n {
            0
        } else {
            k + 1
        }
    }

    /// Appends `item` at the back, or reports `Full` and leaves the queue as it was.
    pub fn enqueue(&mut self, item: T) -> (r: Result<(), BoundedQueueError>)
        requires
            old(self).wf(),
        ensures
            final(self).wf(),
            r is Ok <==> old(self)@.len() < old(self).capacity_spec(),
            r is Err ==> r == Err::<(), BoundedQueueError>(BoundedQueueError::Full),
            final(self)@ == after_enqueue(old(self)@, old(self).capacity_spec(), item),
            final(self).capacity_spec() == old(self).capacity_spec(),
    {
        let next = self.next(self.front);
        if next == self.rear {
            Err(BoundedQueueError::Full)
        } else {
            let ghost before = *self;
            let ghost n = self.slots@.len() as int;
            let front = self.front;
            self.slots.set(front, Some(item));
            self.front = next;
            assert(self.count() == before.count() + 1);
            assert forall|j: int| 0 <= j < self.count() implies (#[trigger] self.slots@[wrap(self.rear + j, n)]) is Some by {
                if j < before.count() {
                    assert(wrap(self.rear + j, n) != front);
                    assert(before.slots@[wrap(before.rear + j, n)] is Some);
                }
            }
            assert(self@ =~= before@.push(item));
            Ok(())
        }
    }

    /// Removes and returns the oldest item, or `None` when the queue is empty.
    pub fn dequeue(&mut self) -> (r: Option<T>)
        requires
            old(self).wf(),
        ensures
            final(self).wf(),
            (r, final(self)@) == take_front(old(self)@),
            final(self).capacity_spec() == old(self).capacity_spec(),
    {
        if self.front == self.rear {
            None
        } else {
            let ghost before = *self;
            let ghost n = self.slots@.len() as int;
            let rear = self.rear;
            assert(self.slots@[wrap(self.rear + 0, n)] is Some);
            let mut slot: Option<T> = None;
            std::mem::swap(&mut slot, &mut self.slots[rear]);
            self.rear = self.next(rear);
            assert(self.count() + 1 == before.count());
            assert forall|j: int| 0 <= j < self.count() implies (#[trigger] self.slots@[wrap(self.rear + j, n)]) is Some by {
                assert(before.slots@[wrap(before.rear + (j + 1), n)] is Some);
            }
            assert(self@ =~= before@.drop_first());
            slot
        }
    }
}

} // verus!
