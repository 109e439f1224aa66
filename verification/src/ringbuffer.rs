use vstd::prelude::*;

verus! {

/// A bounded first-in, first-out queue stored in a fixed ring of slots.
///
/// The queue holds at most `capacity` items. `head` is the slot of the oldest
/// item, `tail` the slot where the next item goes, and `full` tells a full
/// ring apart from an empty one (both have `head == tail`).
pub struct RingBuffer<T> {
    buffer: Vec<Option<T>>,
    capacity: usize,
    head: usize,
    tail: usize,
    full: bool,
}

/// The queue after `item` is offered to a ring of the given capacity holding `q`:
/// it is appended when there is room, otherwise the queue is unchanged.
pub open spec fn queue_after_push<T>(q: Seq<T>, capacity: nat, item: T) -> Seq<T> {
    if q.len() < capacity {
        q.push(item)
    } else {
        q
    }
}

/// The queue after a pop: the oldest item leaves, an empty queue stays empty.
pub open spec fn queue_after_pop<T>(q: Seq<T>) -> Seq<T> {
    if q.len() > 0 {
        q.drop_first()
    } else {
        q
    }
}

/// What a pop hands out: the oldest item, or nothing when the queue is empty.
pub open spec fn popped_item<T>(q: Seq<T>) -> Option<T> {
    if q.len() > 0 {
        Some(q[0])
    } else {
        None
    }
}

impl<T> RingBuffer<T> {
    /// Number of items held, computed from the ring's indices.
    pub closed spec fn spec_len(&self) -> nat {
        if self.full {
            self.capacity as nat
        } else if self.tail >= self.head {
            (self.tail - self.head) as nat
        } else {
            (self.capacity - self.head + self.tail) as nat
        }
    }

    /// The fixed number of slots.
    pub closed spec fn spec_capacity(&self) -> nat {
        self.capacity as nat
    }

    /// The slot that holds the item at position `i` of the queue (0 is the oldest).
    spec fn slot(&self, i: int) -> int {
        if self.head + i < self.capacity {
            self.head + i
        } else {
            self.head + i - self.capacity
        }
    }

    /// The queue position that the slot `j` stands for.
    spec fn offset(&self, j: int) -> int {
        if j >= self.head {
            j - self.head
        } else {
            j + self.capacity - self.head
        }
    }

    /// The ring's internal invariant: indices in range, and exactly the
    /// slots of the queue's positions hold an item.
    pub closed spec fn wf(&self) -> bool {
        &&& self.capacity > 0
        &&& self.buffer@.len() == self.capacity
        &&& self.head < self.capacity
        &&& self.tail < self.capacity
        &&& self.full ==> self.head == self.tail
        &&& forall|j: int|
            0 <= j < self.capacity ==> (#[trigger] self.buffer@[j] is Some <==> self.offset(j)
                < self.spec_len())
    }

    /// The items held, oldest first.
    pub closed spec fn items(&self) -> Seq<T> {
        Seq::new(self.spec_len(), |i: int| self.buffer@[self.slot(i)]->Some_0)
    }

    proof fn lemma_len_bounded(&self)
        requires
            self.wf(),
        ensures
            self.spec_len() <= self.spec_capacity(),
            self.spec_len() == self.spec_capacity() <==> self.full,
            self.spec_len() == 0 <==> (!self.full && self.head == self.tail),
            !self.full ==> self.slot(self.spec_len() as int) == self.tail,
    {
    }

    /// Creates an empty ring with `capacity` slots.
    pub fn new(capacity: usize) -> (rb: Self)
        requires
            capacity > 0,
        ensures
            rb.wf(),
            rb@ == Seq::<T>::empty(),
            rb.spec_capacity() == capacity,
    {
        let mut buffer: Vec<Option<T>> = Vec::new();
        let mut i: usize = 0;
        while i < capacity
            invariant
                i <= capacity,
                buffer@.len() == i,
                forall|j: int| 0 <= j < i ==> #[trigger] buffer@[j] is None,
            decreases capacity - i,
        {
            buffer.push(None);
            i = i + 1;
        }
        let rb = RingBuffer { buffer, capacity, head: 0, tail: 0, full: false };
        assert(rb@ =~= Seq::<T>::empty());
        rb
    }

    /// The oldest item, left in place; nothing when the ring is empty.
    pub fn peek(&self) -> (r: Option<&T>)
        requires
            self.wf(),
        ensures
            r == (if self@.len() == 0 {
                None
            } else {
                Some(&self@[0])
            }),
    {
        if self.is_empty() {
            None
        } else {
            proof {
                assert(self.slot(0) == self.head);
                assert(self.offset(self.head as int) == 0);
            }
            self.buffer[self.head].as_ref()
        }
    }

    /// Whether the ring holds no item.
    pub fn is_empty(&self) -> (r: bool)
        requires
            self.wf(),
        ensures
            r == (self@.len() == 0),
    {
        proof {
            self.lemma_len_bounded();
        }
        !self.full && (self.head == self.tail)
    }

    /// Whether every slot is taken.
    pub fn is_full(&self) -> (r: bool)
        requires
            self.wf(),
        ensures
            r == (self@.len() == self.spec_capacity()),
    {
        proof {
            self.lemma_len_bounded();
        }
        self.full
    }

    /// Appends `item` behind the newest one. A full ring refuses it and hands it back.
    pub fn push(&mut self, item: T) -> (r: Result<(), T>)
        requires
            old(self).wf(),
        ensures
            final(self).wf(),
            final(self).spec_capacity() == old(self).spec_capacity(),
            final(self)@ == queue_after_push(old(self)@, old(self).spec_capacity(), item),
            old(self)@.len() < old(self).spec_capacity() ==> r == Ok::<(), T>(()),
            old(self)@.len() == old(self).spec_capacity() ==> r == Err::<(), T>(item),
    {
        proof {
            self.lemma_len_bounded();
        }
        if self.full {
            return Err(item);
        }
        let ghost old_self = *self;
        let ghost n = old_self.spec_len();
        self.buffer[self.tail] = Some(item);
        proof {
            if self.tail + 1 < self.capacity {
                vstd::arithmetic::div_mod::lemma_small_mod(
                    (self.tail + 1) as nat,
                    self.capacity as nat,
                );
            } else {
                vstd::arithmetic::div_mod::lemma_mod_self_0(self.capacity as int);
            }
        }
        self.tail = (self.tail + 1) % self.capacity;
        self.full = self.tail == self.head;
        proof {
            assert(self.spec_len() == n + 1);
            assert forall|j: int| 0 <= j < self.capacity implies (#[trigger] self.buffer@[j] is Some
                <==> self.offset(j) < self.spec_len()) by {
                if j == old_self.tail {
                    assert(old_self.offset(j) == n);
                } else {
                    assert(old_self.buffer@[j] is Some <==> old_self.offset(j) < n);
                }
            }
            assert(self@ =~= old_self@.push(item)) by {
                assert forall|i: int| 0 <= i < n implies self@[i] == old_self@[i] by {
                    assert(old_self.offset(old_self.slot(i)) == i);
                    assert(old_self.slot(i) != old_self.tail);
                }
                assert(self.slot(n as int) == old_self.tail);
            }
        }
        Ok(())
    }

    /// Removes and returns the oldest item; nothing when the ring is empty.
    pub fn pop(&mut self) -> (r: Option<T>)
        requires
            old(self).wf(),
        ensures
            final(self).wf(),
            final(self).spec_capacity() == old(self).spec_capacity(),
            final(self)@ == queue_after_pop(old(self)@),
            r == popped_item(old(self)@),
    {
        if self.is_empty() {
            return None;
        }
        let ghost old_self = *self;
        let ghost n = old_self.spec_len();
        proof {
            self.lemma_len_bounded();
            assert(old_self.offset(old_self.head as int) == 0);
            assert(old_self.slot(0) == old_self.head);
        }
        let item = self.buffer[self.head].take();
        proof {
            if self.head + 1 < self.capacity {
                vstd::arithmetic::div_mod::lemma_small_mod(
                    (self.head + 1) as nat,
                    self.capacity as nat,
                );
            } else {
                vstd::arithmetic::div_mod::lemma_mod_self_0(self.capacity as int);
            }
        }
        self.head = (self.head + 1) % self.capacity;
        self.full = false;
        proof {
            assert(self.spec_len() == n - 1);
            assert forall|j: int| 0 <= j < self.capacity implies (#[trigger] self.buffer@[j] is Some
                <==> self.offset(j) < self.spec_len()) by {
                if j == old_self.head {
                } else {
                    assert(old_self.buffer@[j] is Some <==> old_self.offset(j) < n);
                    assert(self.offset(j) == old_self.offset(j) - 1);
                }
            }
            assert(self@ =~= old_self@.drop_first()) by {
                assert forall|i: int| 0 <= i < n - 1 implies self@[i] == old_self@[i + 1] by {
                    assert(self.slot(i) == old_self.slot(i + 1));
                    assert(old_self.offset(old_self.slot(i + 1)) == i + 1);
                }
            }
        }
        item
    }

    /// Number of items held.
    pub fn len(&self) -> (r: usize)
        requires
            self.wf(),
        ensures
            r == self@.len(),
    {
        if self.full {
            self.capacity
        } else if self.tail >= self.head {
            self.tail - self.head
        } else {
            self.capacity - self.head + self.tail
        }
    }

    /// Number of slots.
    pub fn capacity(&self) -> (r: usize)
        ensures
            r == self.spec_capacity(),
    {
        self.capacity
    }
}

/// A well-formed ring holds at least one slot and never more items than it has slots.
pub proof fn lemma_ring_bounds<T>(rb: &RingBuffer<T>)
    requires
        rb.wf(),
    ensures
        rb.spec_capacity() > 0,
        rb@.len() <= rb.spec_capacity(),
{
    rb.lemma_len_bounded();
}

/// Items leave in the order they entered: on a queue that is neither empty nor
/// full, a push followed by a pop equals a pop followed by the same push, and the
/// pop hands out the same oldest item either way.
pub proof fn lemma_push_pop_commute<T>(q: Seq<T>, capacity: nat, item: T)
    requires
        0 < q.len() < capacity,
    ensures
        queue_after_pop(queue_after_push(q, capacity, item)) == queue_after_push(
            queue_after_pop(q),
            capacity,
            item,
        ),
        popped_item(queue_after_push(q, capacity, item)) == popped_item(q),
{
    assert(q.push(item).drop_first() =~= q.drop_first().push(item));
}

/// What is pushed into an empty ring is what the next pop hands out, and the
/// ring is empty again after it.
pub proof fn lemma_push_then_pop_empty<T>(capacity: nat, item: T)
    requires
        capacity > 0,
    ensures
        popped_item(queue_after_push(Seq::<T>::empty(), capacity, item)) == Some(item),
        queue_after_pop(queue_after_push(Seq::<T>::empty(), capacity, item)) == Seq::<T>::empty(),
{
    assert(Seq::<T>::empty().push(item).drop_first() =~= Seq::<T>::empty());
}

/// The queue after offering each of `items` in turn.
pub open spec fn queue_after_pushes<T>(q: Seq<T>, capacity: nat, items: Seq<T>) -> Seq<T>
    decreases items.len(),
{
    if items.len() == 0 {
        q
    } else {
        queue_after_push(queue_after_pushes(q, capacity, items.drop_last()), capacity, items.last())
    }
}

/// Pushes that fit are appended in the order they are made.
pub proof fn lemma_pushes_append<T>(q: Seq<T>, capacity: nat, items: Seq<T>)
    requires
        q.len() + items.len() <= capacity,
    ensures
        queue_after_pushes(q, capacity, items) == q + items,
    decreases items.len(),
{
    if items.len() == 0 {
        assert(q + items =~= q);
    } else {
        lemma_pushes_append(q, capacity, items.drop_last());
        assert((q + items.drop_last()).push(items.last()) =~= q + items);
    }
}

/// One step of the queue: a push appends the item exactly when there is room and
/// otherwise leaves the queue as it was; a pop hands out the oldest item and keeps
/// the rest in order, and on an empty queue hands out nothing and changes nothing.
pub proof fn lemma_queue_steps<T>(q: Seq<T>, capacity: nat, item: T)
    ensures
        q.len() < capacity ==> queue_after_push(q, capacity, item) == q.push(item),
        q.len() >= capacity ==> queue_after_push(q, capacity, item) == q,
        q.len() > 0 ==> popped_item(q) == Some(q[0]) && queue_after_pop(q) == q.subrange(
            1,
            q.len() as int,
        ),
        q.len() == 0 ==> popped_item(q) == None::<T> && queue_after_pop(q) == q,
{
}

/// What `n` successive pops hand out, in order.
pub open spec fn popped_items<T>(q: Seq<T>, n: nat) -> Seq<Option<T>>
    decreases n,
{
    if n == 0 {
        Seq::empty()
    } else {
        seq![popped_item(q)] + popped_items(queue_after_pop(q), (n - 1) as nat)
    }
}

/// The queue after `n` successive pops.
pub open spec fn queue_after_pops<T>(q: Seq<T>, n: nat) -> Seq<T>
    decreases n,
{
    if n == 0 {
        q
    } else {
        queue_after_pops(queue_after_pop(q), (n - 1) as nat)
    }
}

/// Popping as many times as there are items hands them all out, oldest first,
/// and leaves the queue empty.
pub proof fn lemma_pops_drain<T>(q: Seq<T>)
    ensures
        popped_items(q, q.len()) == q.map_values(|x: T| Some(x)),
        queue_after_pops(q, q.len()) == Seq::<T>::empty(),
    decreases q.len(),
{
    if q.len() == 0 {
        assert(q.map_values(|x: T| Some(x)) =~= Seq::<Option<T>>::empty());
        assert(q =~= Seq::<T>::empty());
    } else {
        let rest = q.drop_first();
        lemma_pops_drain(rest);
        assert((q.len() - 1) as nat == rest.len());
        assert(seq![Some(q[0])] + rest.map_values(|x: T| Some(x)) =~= q.map_values(
            |x: T| Some(x),
        ));
    }
}

/// Items leave in the order they entered: the items of `s`, pushed one after the
/// other into an empty ring that has room for them all, come out of the next
/// `s.len()` pops in that order, and one more pop finds the ring empty.
pub proof fn lemma_fifo<T>(capacity: nat, s: Seq<T>)
    requires
        s.len() <= capacity,
    ensures
        queue_after_pushes(Seq::<T>::empty(), capacity, s) == s,
        popped_items(queue_after_pushes(Seq::<T>::empty(), capacity, s), s.len() + 1) == s.map_values(
            |x: T| Some(x),
        ).push(None),
        queue_after_pops(queue_after_pushes(Seq::<T>::empty(), capacity, s), s.len() + 1)
            == Seq::<T>::empty(),
{
    lemma_pushes_append(Seq::<T>::empty(), capacity, s);
    assert(Seq::<T>::empty() + s =~= s);
    lemma_pops_drain(s);
    lemma_pops_split(s, s.len(), 1);
    let e = Seq::<T>::empty();
    assert(queue_after_pop(e) == e);
    assert(popped_items(queue_after_pop(e), 0) == Seq::<Option<T>>::empty());
    assert(popped_items(e, 1) == seq![popped_item(e)] + popped_items(queue_after_pop(e), 0));
    assert(popped_items(e, 1) =~= seq![None::<T>]);
    assert(queue_after_pops(e, 1) == queue_after_pops(queue_after_pop(e), 0));
    assert(s.map_values(|x: T| Some(x)) + seq![None::<T>] =~= s.map_values(|x: T| Some(x)).push(
        None,
    ));
}

/// `a + b` pops are `a` pops followed by `b` more.
pub proof fn lemma_pops_split<T>(q: Seq<T>, a: nat, b: nat)
    ensures
        popped_items(q, a + b) == popped_items(q, a) + popped_items(queue_after_pops(q, a), b),
        queue_after_pops(q, a + b) == queue_after_pops(queue_after_pops(q, a), b),
    decreases a,
{
    if a == 0 {
        assert(Seq::<Option<T>>::empty() + popped_items(q, b) =~= popped_items(q, b));
    } else {
        lemma_pops_split(queue_after_pop(q), (a - 1) as nat, b);
        assert((a + b - 1) as nat == ((a - 1) as nat + b) as nat);
        let x = seq![popped_item(q)];
        let y = popped_items(queue_after_pop(q), (a - 1) as nat);
        let z = popped_items(queue_after_pops(q, a), b);
        assert(x + (y + z) =~= (x + y) + z);
    }
}

impl<T> View for RingBuffer<T> {
    type V = Seq<T>;

    open spec fn view(&self) -> Seq<T> {
        self.items()
    }
}

} // verus!
