use vstd::prelude::*;

use crate::queue::{after_enqueue, take_front};

verus! {

/// Contents after enqueueing each of `items` in turn, starting from `contents`.
pub open spec fn enqueue_each<T>(contents: Seq<T>, cap: nat, items: Seq<T>) -> Seq<T>
    decreases items.len(),
{
    if items.len() == 0 {
        contents
    } else {
        enqueue_each(after_enqueue(contents, cap, items[0]), cap, items.drop_first())
    }
}

/// For each of those enqueues, whether it was accepted.
pub open spec fn accepted_each<T>(contents: Seq<T>, cap: nat, items: Seq<T>) -> Seq<bool>
    decreases items.len(),
{
    if items.len() == 0 {
        Seq::empty()
    } else {
        seq![contents.len() < cap] + accepted_each(
            after_enqueue(contents, cap, items[0]),
            cap,
            items.drop_first(),
        )
    }
}

/// What `k` dequeues in a row return, starting from `contents`.
pub open spec fn dequeue_each<T>(contents: Seq<T>, k: nat) -> Seq<Option<T>>
    decreases k,
{
    if k == 0 {
        Seq::empty()
    } else {
        seq![take_front(contents).0] + dequeue_each(take_front(contents).1, (k - 1) as nat)
    }
}

proof fn lemma_enqueue_each<T>(contents: Seq<T>, cap: nat, items: Seq<T>)
    requires
        contents.len() <= cap,
    ensures
        accepted_each(contents, cap, items).len() == items.len(),
        forall|i: int|
            0 <= i < items.len() ==> #[trigger] accepted_each(contents, cap, items)[i] == (
            contents.len() + i < cap),
        enqueue_each(contents, cap, items) == contents + items.take(
            if contents.len() + items.len() <= cap {
                items.len() as int
            } else {
                cap - contents.len()
            },
        ),
    decreases items.len(),
{
    if items.len() == 0 {
        assert(contents + items.take(0) =~= contents);
    } else {
        let next = after_enqueue(contents, cap, items[0]);
        let rest = items.drop_first();
        lemma_enqueue_each(next, cap, rest);
        let acc = accepted_each(contents, cap, items);
        assert(acc == seq![contents.len() < cap] + accepted_each(next, cap, rest));
        assert forall|i: int| 0 <= i < items.len() implies #[trigger] acc[i] == (contents.len()
            + i < cap) by {
            if i > 0 {
                assert(acc[i] == accepted_each(next, cap, rest)[i - 1]);
            }
        }
        if contents.len() < cap {
            let k = if contents.len() + items.len() <= cap {
                items.len() as int
            } else {
                cap - contents.len()
            };
            assert(next + rest.take(k - 1) =~= contents + items.take(k));
        } else {
            assert(rest.take(0) =~= items.take(0));
            assert(contents + items.take(0) =~= contents);
            assert(next + rest.take(0) =~= contents);
        }
    }
}

proof fn lemma_drain<T>(contents: Seq<T>)
    ensures
        dequeue_each(contents, (contents.len() + 1) as nat) == contents.map_values(
            |x: T| Some(x),
        ).push(None),
    decreases contents.len(),
{
    let k = (contents.len() + 1) as nat;
    if contents.len() == 0 {
        assert(dequeue_each(contents, 0) =~= Seq::<Option<T>>::empty());
        assert(dequeue_each(contents, k) =~= seq![None]);
        assert(contents.map_values(|x: T| Some(x)).push(None) =~= seq![None]);
    } else {
        let rest = contents.drop_first();
        lemma_drain(rest);
        assert(dequeue_each(contents, k) == seq![Some(contents[0])] + dequeue_each(
            rest,
            (rest.len() + 1) as nat,
        ));
        assert(dequeue_each(contents, k) =~= contents.map_values(|x: T| Some(x)).push(None));
    }
}

/// On a queue with room for `cap`, started empty, a run of enqueues with no
/// dequeue between them is accepted for the first `cap` items and refused with
/// `Full` for every later one; what the queue then holds is those first items.
pub proof fn capacity_law<T>(cap: nat, items: Seq<T>)
    ensures
        accepted_each(Seq::empty(), cap, items).len() == items.len(),
        forall|i: int|
            0 <= i < items.len() ==> #[trigger] accepted_each(Seq::empty(), cap, items)[i] == (i
                < cap),
        enqueue_each(Seq::empty(), cap, items) == items.take(
            if items.len() <= cap {
                items.len() as int
            } else {
                cap as int
            },
        ),
{
    lemma_enqueue_each(Seq::<T>::empty(), cap, items);
    let k = if items.len() <= cap {
        items.len() as int
    } else {
        cap as int
    };
    assert(Seq::<T>::empty() + items.take(k) =~= items.take(k));
}

/// Items enqueued on an empty queue without exceeding its capacity come back
/// from the same number of dequeues, in the order in which they went in.
pub proof fn fifo_law<T>(cap: nat, items: Seq<T>)
    requires
        items.len() <= cap,
    ensures
        dequeue_each(enqueue_each(Seq::empty(), cap, items), items.len()) == items.map_values(
            |x: T| Some(x),
        ),
{
    capacity_law(cap, items);
    assert(items.take(items.len() as int) =~= items);
    lemma_drain(items);
    lemma_prefix(items, items.len());
}

proof fn lemma_prefix<T>(contents: Seq<T>, k: nat)
    requires
        k <= contents.len(),
    ensures
        dequeue_each(contents, k) == contents.take(k as int).map_values(|x: T| Some(x)),
    decreases k,
{
    if k == 0 {
        assert(dequeue_each(contents, 0) =~= contents.take(0).map_values(|x: T| Some(x)));
    } else {
        let rest = contents.drop_first();
        lemma_prefix(rest, (k - 1) as nat);
        assert(dequeue_each(contents, k) =~= contents.take(k as int).map_values(
            |x: T| Some(x),
        ));
    }
}

/// A dequeue finds nothing on a queue that was just made, and nothing on one
/// whose items have all been dequeued.
pub proof fn empty_law<T>(contents: Seq<T>)
    ensures
        take_front(Seq::<T>::empty()).0 == None::<T>,
        dequeue_each(contents, (contents.len() + 1) as nat)[contents.len() as int] == None::<T>,
{
    lemma_drain(contents);
}

/// An item enqueued on an empty queue with room for it is what the next
/// dequeue returns, and the queue is empty again afterwards.
pub proof fn round_trip_law<T>(cap: nat, x: T)
    requires
        cap > 0,
    ensures
        take_front(after_enqueue(Seq::<T>::empty(), cap, x)) == (Some(x), Seq::<T>::empty()),
{
    let s = Seq::<T>::empty().push(x);
    assert(s.drop_first() =~= Seq::<T>::empty());
}

} // verus!
