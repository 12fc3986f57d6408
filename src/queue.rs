use std::collections::VecDeque;
use vstd::prelude::*;

verus! {

/// A fixed-capacity FIFO of serialized messages.
///
/// This is the sequential state of the pipeline's backpressure valve: a
/// producer that finds the queue full gets its message back and waits, a
/// consumer that finds it empty gets nothing and waits. Whoever shares the
/// queue between threads guards each call with one lock.
pub struct BoundedQueue {
    items: VecDeque<Vec<u8>>,
    capacity: usize,
}

impl View for BoundedQueue {
    type V = Seq<Vec<u8>>;

    closed spec fn view(&self) -> Seq<Vec<u8>> {
        self.items@
    }
}

impl BoundedQueue {
    /// The capacity fixed when the queue was made.
    pub closed spec fn spec_capacity(&self) -> nat {
        self.capacity as nat
    }

    /// The queue never holds more than its capacity, and the capacity is positive.
    pub open spec fn wf(&self) -> bool {
        0 < self.spec_capacity() && self@.len() <= self.spec_capacity()
    }

    pub fn new(capacity: usize) -> (q: BoundedQueue)
        requires
            capacity > 0,
        ensures
            q.wf(),
            q@ == Seq::<Vec<u8>>::empty(),
            q.spec_capacity() == capacity,
    {
        BoundedQueue { items: VecDeque::new(), capacity }
    }

    pub fn capacity(&self) -> (r: usize)
        ensures
            r == self.spec_capacity(),
    {
        self.capacity
    }

    pub fn len(&self) -> (r: usize)
        ensures
            r == self@.len(),
    {
        self.items.len()
    }

    pub fn is_empty(&self) -> (r: bool)
        ensures
            r == (self@.len() == 0),
    {
        self.items.len() == 0
    }

    pub fn is_full(&self) -> (r: bool)
        ensures
            r == (self@.len() >= self.spec_capacity()),
    {
        self.items.len() >= self.capacity
    }

    /// Appends `item` at the tail if there is room. On a full queue nothing
    /// changes and the item is handed back, for the caller to wait and retry.
    pub fn try_push(&mut self, item: Vec<u8>) -> (r: Result<(), Vec<u8>>)
        requires
            old(self).wf(),
        ensures
            final(self).wf(),
            final(self).spec_capacity() == old(self).spec_capacity(),
            old(self)@.len() < old(self).spec_capacity() ==> r is Ok && final(self)@ == old(
                self,
            )@.push(item),
            old(self)@.len() >= old(self).spec_capacity() ==> r == Err::<(), Vec<u8>>(item)
                && final(self)@ == old(self)@,
    {
        if self.items.len() >= self.capacity {
            Err(item)
        } else {
            self.items.push_back(item);
            Ok(())
        }
    }

    /// Removes and returns the head of the queue, or `None` when it is empty.
    pub fn try_pop(&mut self) -> (r: Option<Vec<u8>>)
        requires
            old(self).wf(),
        ensures
            final(self).wf(),
            final(self).spec_capacity() == old(self).spec_capacity(),
            old(self)@.len() == 0 ==> r is None && final(self)@ == old(self)@,
            old(self)@.len() > 0 ==> r == Some(old(self)@[0]) && final(self)@ == old(
                self,
            )@.drop_first(),
    {
        self.items.pop_front()
    }
}

/// The contents after `xs` are pushed one after another onto contents `q`:
/// each step is what `try_push` does on a queue with room.
pub open spec fn push_all(q: Seq<Vec<u8>>, xs: Seq<Vec<u8>>) -> Seq<Vec<u8>>
    decreases xs.len(),
{
    if xs.len() == 0 {
        q
    } else {
        push_all(q.push(xs[0]), xs.drop_first())
    }
}

/// The items that popping contents `q` until it is empty hands out, in order:
/// each step is what `try_pop` does on a queue that is not empty, which hands
/// out the head and keeps the rest.
pub open spec fn pop_all(q: Seq<Vec<u8>>) -> Seq<Vec<u8>>
    decreases q.len(),
{
    if q.len() == 0 {
        Seq::empty()
    } else {
        seq![q[0]] + pop_all(q.drop_first())
    }
}

proof fn lemma_push_all(q: Seq<Vec<u8>>, xs: Seq<Vec<u8>>)
    ensures
        push_all(q, xs) == q + xs,
    decreases xs.len(),
{
    if xs.len() > 0 {
        lemma_push_all(q.push(xs[0]), xs.drop_first());
        assert(q.push(xs[0]) + xs.drop_first() =~= q + xs);
    }
}

proof fn lemma_pop_all(q: Seq<Vec<u8>>)
    ensures
        pop_all(q) == q,
    decreases q.len(),
{
    if q.len() > 0 {
        lemma_pop_all(q.drop_first());
        assert(seq![q[0]] + q.drop_first() =~= q);
    }
}

/// Items leave the queue in the order in which they entered it: after a
/// producer pushes `xs` onto a queue holding `q`, popping hands out the items
/// of `q` and then those of `xs`, each once, in their order.
pub proof fn lemma_fifo(q: Seq<Vec<u8>>, xs: Seq<Vec<u8>>)
    ensures
        pop_all(push_all(q, xs)) == q + xs,
{
    lemma_push_all(q, xs);
    lemma_pop_all(q + xs);
}

/// A pop hands its item to one consumer only: the item leaves the contents,
/// and every other item stays as often as it was there before.
pub proof fn lemma_pop_once(q: Seq<Vec<u8>>)
    requires
        q.len() > 0,
    ensures
        q.drop_first().to_multiset() == q.to_multiset().remove(q[0]),
{
    broadcast use vstd::seq_lib::group_to_multiset_ensures;

    assert(q.remove(0) =~= q.drop_first());
}

/// On a full queue one pop makes room for exactly one push: the first push
/// after it enters at the tail, and any push after that finds the queue full
/// and gets its item back, until the next pop.
pub proof fn lemma_one_pop_one_push(q: BoundedQueue, x: Vec<u8>)
    requires
        q.wf(),
        q@.len() == q.spec_capacity(),
    ensures
        q@.drop_first().len() < q.spec_capacity(),
        q@.drop_first().push(x).len() >= q.spec_capacity(),
{
}

} // verus!
