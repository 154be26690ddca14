use vstd::prelude::*;
use crate::ring::{pushed, popped, slot_of, offset_of, ring_index};

verus! {

/// Constructs `value` in slot `i`, which must hold nothing.
fn construct_at<T>(slots: &mut Vec<Option<T>>, i: usize, value: T)
    requires
        i < old(slots)@.len(),
        old(slots)@[i as int] is None,
    ensures
        final(slots)@ == old(slots)@.update(i as int, Some(value)),
{
    slots.set(i, Some(value));
}

/// Moves the value out of slot `i`, which must hold one, and leaves the slot empty.
fn destroy_and_read_at<T>(slots: &mut Vec<Option<T>>, i: usize) -> (r: T)
    requires
        i < old(slots)@.len(),
        old(slots)@[i as int] is Some,
    ensures
        Some(r) == old(slots)@[i as int],
        final(slots)@ == old(slots)@.update(i as int, None),
{
    let mut taken: Option<T> = None;
    slots.set_and_swap(i, &mut taken);
    taken.unwrap()
}

/// A bounded FIFO queue that overwrites its oldest element when full, whose
/// slots carry no occupancy of their own: `start` and `size` alone say which
/// slots hold a value, and every value is constructed into and moved out of
/// its slot explicitly.
pub struct RingBufferU<T> {
    start: usize,
    size: usize,
    cap: usize,
    slots: Vec<Option<T>>,
}

impl<T> RingBufferU<T> {
    /// The fixed capacity: the slot count, or `usize::MAX` for element types
    /// without a footprint.
    pub closed spec fn spec_capacity(&self) -> nat {
        self.cap as nat
    }

    /// The elements held, oldest first.
    pub closed spec fn view(&self) -> Seq<T> {
        Seq::new(
            self.size as nat,
            |k: int| self.slots@[slot_of(self.start as int, k, self.cap as int)].unwrap(),
        )
    }

    /// All slots are allocated up front, but for element types without a
    /// footprint, whose slots are allocated as the ring first reaches them;
    /// the slots holding a value are exactly the `size` ones from `start` on.
    pub closed spec fn wf(&self) -> bool {
        &&& self.size <= self.cap
        &&& self.slots@.len() <= self.cap
        &&& self.cap == 0 ==> self.start == 0
        &&& self.cap > 0 ==> self.start < self.cap
        &&& self.slots@.len() == self.cap || self.start + self.size <= self.slots@.len()
        &&& vstd::layout::size_of::<T>() != 0 ==> self.slots@.len() == self.cap
        &&& vstd::layout::size_of::<T>() == 0 ==> self.cap == usize::MAX
        &&& forall|i: int|
            0 <= i < self.slots@.len() ==> ((#[trigger] self.slots@[i]).is_some() <==> offset_of(
                self.start as int,
                i,
                self.cap as int,
            ) < self.size)
    }

    /// An empty buffer of `cap` slots; for element types without a footprint
    /// the capacity is `usize::MAX` and no slot is allocated yet.
    pub fn with_capacity(cap: usize) -> (r: Self)
        ensures
            r.wf(),
            r@ == Seq::<T>::empty(),
            r.spec_capacity() == if vstd::layout::size_of::<T>() == 0 {
                usize::MAX as nat
            } else {
                cap as nat
            },
    {
        if std::mem::size_of::<T>() == 0 {
            let r = RingBufferU { start: 0, size: 0, cap: usize::MAX, slots: Vec::new() };
            assert(r@ =~= Seq::<T>::empty());
            return r;
        }
        let mut slots: Vec<Option<T>> = Vec::with_capacity(cap);
        let mut n: usize = 0;
        while n < cap
            invariant
                n <= cap,
                slots@.len() == n,
                forall|i: int| 0 <= i < n ==> (#[trigger] slots@[i]).is_none(),
            decreases cap - n,
        {
            slots.push(None);
            n = n + 1;
        }
        let r = RingBufferU { start: 0, size: 0, cap, slots };
        assert(r@ =~= Seq::<T>::empty());
        r
    }

    /// The fixed capacity.
    pub fn capacity(&self) -> (r: usize)
        ensures
            r == self.spec_capacity(),
    {
        self.cap
    }
}

impl<T> RingBufferU<T> {
    /// Appends `element`; when the buffer is full its oldest element is
    /// destroyed first, and a buffer of capacity zero keeps nothing.
    pub fn push(&mut self, element: T)
        requires
            old(self).wf(),
        ensures
            final(self).wf(),
            final(self).spec_capacity() == old(self).spec_capacity(),
            final(self)@ == pushed(old(self).spec_capacity(), old(self)@, element),
    {
        if self.cap == 0 {
            return;
        }
        let ghost old_slots = self.slots@;
        let idx = ring_index(self.start, self.size, self.cap);
        if self.size == self.cap {
            // The displaced element is moved out and dropped right here.
            let _ = destroy_and_read_at(&mut self.slots, idx);
            self.start = ring_index(self.start, 1, self.cap);
            construct_at(&mut self.slots, idx, element);
        } else {
            self.size = self.size + 1;
            if idx == self.slots.len() {
                self.slots.push(Some(element));
            } else {
                construct_at(&mut self.slots, idx, element);
            }
        }
        proof {
            let c = self.cap as int;
            let new_start = self.start as int;
            assert forall|i: int| 0 <= i < self.slots@.len() implies ((
            #[trigger] self.slots@[i]).is_some() <==> offset_of(new_start, i, c) < self.size) by {
                if i != idx as int {
                    assert(self.slots@[i] == old_slots[i]);
                }
            }
        }
    }

    /// Moves out the oldest element; `None`, with the buffer untouched, when
    /// it is empty.
    pub fn pop(&mut self) -> (r: Option<T>)
        requires
            old(self).wf(),
        ensures
            final(self).wf(),
            final(self).spec_capacity() == old(self).spec_capacity(),
            final(self)@ == popped(old(self)@),
            old(self)@.len() == 0 ==> r is None && *final(self) == *old(self),
            old(self)@.len() > 0 ==> r == Some(old(self)@[0]),
    {
        if self.size == 0 {
            return None;
        }
        let ghost old_slots = self.slots@;
        let idx = self.start;
        self.start = ring_index(self.start, 1, self.cap);
        self.size = self.size - 1;
        let r = destroy_and_read_at(&mut self.slots, idx);
        proof {
            let c = self.cap as int;
            let new_start = self.start as int;
            assert(offset_of(idx as int, idx as int, c) == 0);
            assert forall|i: int| 0 <= i < self.slots@.len() implies ((
            #[trigger] self.slots@[i]).is_some() <==> offset_of(new_start, i, c) < self.size) by {
                if i != idx as int {
                    assert(self.slots@[i] == old_slots[i]);
                }
            }
        }
        Some(r)
    }
}

impl<T> RingBufferU<T> {
    /// A buffer never holds more elements than its capacity.
    pub proof fn lemma_size_bounded(&self)
        requires
            self.wf(),
        ensures
            self@.len() <= self.spec_capacity(),
    {
    }

    /// Hands the buffer over to a consuming iterator.
    pub fn into_iter(self) -> (r: RBUIter<T>)
        requires
            self.wf(),
        ensures
            r.wf(),
            r@ == self@,
    {
        RBUIter(self)
    }
}

/// Consuming iterator over a [`RingBufferU`]: yields its elements oldest first.
pub struct RBUIter<T>(RingBufferU<T>);

impl<T> RBUIter<T> {
    /// The elements still to come, in order.
    pub closed spec fn view(&self) -> Seq<T> {
        self.0@
    }

    /// The wrapped buffer is well formed.
    pub closed spec fn wf(&self) -> bool {
        self.0.wf()
    }

    /// The next element, moved out of the wrapped buffer; `None` once it is empty.
    pub fn next(&mut self) -> (r: Option<T>)
        requires
            old(self).wf(),
        ensures
            final(self).wf(),
            final(self)@ == popped(old(self)@),
            old(self)@.len() == 0 ==> r is None,
            old(self)@.len() > 0 ==> r == Some(old(self)@[0]),
    {
        self.0.pop()
    }

    /// Drains the iterator into a vector, oldest element first.
    pub fn collect_vec(self) -> (r: Vec<T>)
        requires
            self.wf(),
        ensures
            r@ == self@,
    {
        let mut it = self;
        let mut out: Vec<T> = Vec::new();
        loop
            invariant
                it.wf(),
                out@ + it@ == self@,
            decreases it@.len(),
        {
            let ghost before = it@;
            match it.next() {
                Some(x) => {
                    out.push(x);
                    assert(out@ + it@ =~= self@) by {
                        assert(before =~= seq![x] + it@);
                        assert(self@ =~= (out@.drop_last() + seq![x]) + it@);
                    }
                },
                None => {
                    assert(out@ =~= self@);
                    return out;
                },
            }
        }
    }
}

} // verus!
