use vstd::prelude::*;
use crate::ring::{pushed, popped, slot_of, offset_of, ring_index};

verus! {

/// Storage of a [`RingBuffer`]: tagged slots, or, for element types without a
/// footprint, a growable list that never needs to evict.
enum RawRingBuffer<T> {
    Sized(Vec<Option<T>>),
    Zerosized(Vec<T>),
}

impl<T> RawRingBuffer<T> {
    spec fn spec_capacity(&self) -> nat {
        match self {
            RawRingBuffer::Sized(vo) => vo@.len(),
            RawRingBuffer::Zerosized(_) => usize::MAX as nat,
        }
    }

    fn capacity(&self) -> (r: usize)
        ensures
            r == self.spec_capacity(),
    {
        match self {
            RawRingBuffer::Sized(vo) => vo.len(),
            RawRingBuffer::Zerosized(_) => usize::MAX,
        }
    }
}

/// A bounded FIFO queue that overwrites its oldest element when full.
pub struct RingBuffer<T> {
    start: usize,
    size: usize,
    buffer: RawRingBuffer<T>,
}

impl<T> RingBuffer<T> {
    /// The fixed capacity: the slot count, or `usize::MAX` for element types
    /// without a footprint.
    pub closed spec fn spec_capacity(&self) -> nat {
        self.buffer.spec_capacity()
    }

    /// The elements held, oldest first.
    pub closed spec fn view(&self) -> Seq<T> {
        match self.buffer {
            RawRingBuffer::Sized(vo) => Seq::new(
                self.size as nat,
                |k: int| vo@[slot_of(self.start as int, k, vo@.len() as int)].unwrap(),
            ),
            RawRingBuffer::Zerosized(v) => v@,
        }
    }

    /// Occupied slots are exactly the `size` slots from `start` on, round the ring.
    pub closed spec fn wf(&self) -> bool {
        match self.buffer {
            RawRingBuffer::Sized(vo) => {
                &&& self.size <= vo@.len()
                &&& vo@.len() == 0 ==> self.start == 0
                &&& vo@.len() > 0 ==> self.start < vo@.len()
                &&& forall|i: int|
                    0 <= i < vo@.len() ==> ((#[trigger] vo@[i]).is_some() <==> offset_of(
                        self.start as int,
                        i,
                        vo@.len() as int,
                    ) < self.size)
            },
            RawRingBuffer::Zerosized(v) => {
                &&& self.start < usize::MAX
                &&& self.size == v@.len()
                &&& vstd::layout::size_of::<T>() == 0
            },
        }
    }

    /// An empty buffer of `cap` slots; for element types without a footprint
    /// no slots are allocated and the capacity is `usize::MAX`.
    pub fn with_capacity(cap: usize) -> (r: Self)
        ensures
            r.wf(),
            r@ == Seq::<T>::empty(),
            r.spec_capacity() == if vstd::layout::size_of::<T>() == 0 {
                usize::MAX as nat
            } else {
                cap as nat
            },
    {
        let buffer = if std::mem::size_of::<T>() > 0 {
            let mut buffer: Vec<Option<T>> = Vec::with_capacity(cap);
            let mut n: usize = 0;
            while n < cap
                invariant
                    n <= cap,
                    buffer@.len() == n,
                    forall|i: int| 0 <= i < n ==> (#[trigger] buffer@[i]).is_none(),
                decreases cap - n,
            {
                buffer.push(None);
                n = n + 1;
            }
            RawRingBuffer::Sized(buffer)
        } else {
            RawRingBuffer::Zerosized(Vec::new())
        };
        let r = RingBuffer { start: 0, size: 0, buffer };
        assert(r@ =~= Seq::<T>::empty());
        r
    }

    /// The fixed capacity.
    pub fn capacity(&self) -> (r: usize)
        ensures
            r == self.spec_capacity(),
    {
        self.buffer.capacity()
    }
}

impl<T> RingBuffer<T> {
    /// Appends `element`; when the buffer is full its oldest element is
    /// evicted, and a buffer of capacity zero keeps nothing.
    pub fn push(&mut self, element: T)
        requires
            old(self).wf(),
        ensures
            final(self).wf(),
            final(self).spec_capacity() == old(self).spec_capacity(),
            final(self)@ == pushed(old(self).spec_capacity(), old(self)@, element),
    {
        let cap = self.capacity();
        match &mut self.buffer {
            RawRingBuffer::Sized(vo) => {
                if cap == 0 {
                    return;
                }
                let ghost old_vo = vo@;
                let ghost old_start = self.start as int;
                let ghost old_size = self.size as int;
                let idx = ring_index(self.start, self.size, cap);
                vo.set(idx, Some(element));
                if self.size == cap {
                    self.start = ring_index(self.start, 1, cap);
                } else {
                    self.size = self.size + 1;
                }
                proof {
                    let c = cap as int;
                    let new_start = self.start as int;
                    assert forall|i: int| 0 <= i < c implies ((#[trigger] vo@[i]).is_some()
                        <==> offset_of(new_start, i, c) < self.size) by {
                        if i != idx as int {
                            assert(vo@[i] == old_vo[i]);
                        }
                    }
                }
            },
            RawRingBuffer::Zerosized(v) => {
                if self.size == usize::MAX {
                    v.remove(0);
                } else {
                    self.size = self.size + 1;
                }
                v.push(element);
            },
        }
    }

    /// Takes out the oldest element; `None`, with the buffer untouched, when
    /// it is empty.
    pub fn pop(&mut self) -> (r: Option<T>)
        requires
            old(self).wf(),
        ensures
            final(self).wf(),
            final(self).spec_capacity() == old(self).spec_capacity(),
            final(self)@ == popped(old(self)@),
            old(self)@.len() == 0 ==> r is None && *final(self) == *old(self),
            old(self)@.len() > 0 ==> r == Some(old(self)@[0]),
    {
        if self.size == 0 {
            return None;
        }
        let cap = self.capacity();
        let idx = self.start;
        self.start = ring_index(self.start, 1, cap);
        self.size = self.size - 1;
        match &mut self.buffer {
            RawRingBuffer::Sized(vo) => {
                let ghost old_vo = vo@;
                let mut taken: Option<T> = None;
                vo.set_and_swap(idx, &mut taken);
                proof {
                    let c = cap as int;
                    let new_start = self.start as int;
                    assert(offset_of(idx as int, idx as int, c) == 0);
                    assert forall|i: int| 0 <= i < c implies ((#[trigger] vo@[i]).is_some()
                        <==> offset_of(new_start, i, c) < self.size) by {
                        if i != idx as int {
                            assert(vo@[i] == old_vo[i]);
                        }
                    }
                }
                taken
            },
            RawRingBuffer::Zerosized(v) => Some(v.remove(0)),
        }
    }
}

impl<T> RingBuffer<T> {
    /// A buffer never holds more elements than its capacity.
    pub proof fn lemma_size_bounded(&self)
        requires
            self.wf(),
        ensures
            self@.len() <= self.spec_capacity(),
    {
    }

    /// Hands the buffer over to a consuming iterator.
    pub fn into_iter(self) -> (r: RBIter<T>)
        requires
            self.wf(),
        ensures
            r.wf(),
            r@ == self@,
    {
        RBIter(self)
    }
}

/// Consuming iterator over a [`RingBuffer`]: yields its elements oldest first.
pub struct RBIter<T>(RingBuffer<T>);

impl<T> RBIter<T> {
    /// The elements still to come, in order.
    pub closed spec fn view(&self) -> Seq<T> {
        self.0@
    }

    /// The wrapped buffer is well formed.
    pub closed spec fn wf(&self) -> bool {
        self.0.wf()
    }

    /// The next element, popped from the wrapped buffer; `None` once it is empty.
    pub fn next(&mut self) -> (r: Option<T>)
        requires
            old(self).wf(),
        ensures
            final(self).wf(),
            final(self)@ == popped(old(self)@),
            old(self)@.len() == 0 ==> r is None,
            old(self)@.len() > 0 ==> r == Some(old(self)@[0]),
    {
        self.0.pop()
    }

    /// Drains the iterator into a vector, oldest element first.
    pub fn collect_vec(self) -> (r: Vec<T>)
        requires
            self.wf(),
        ensures
            r@ == self@,
    {
        let mut it = self;
        let mut out: Vec<T> = Vec::new();
        loop
            invariant
                it.wf(),
                out@ + it@ == self@,
            decreases it@.len(),
        {
            let ghost before = it@;
            match it.next() {
                Some(x) => {
                    out.push(x);
                    assert(out@ + it@ =~= self@) by {
                        assert(before =~= seq![x] + it@);
                        assert(self@ =~= (out@.drop_last() + seq![x]) + it@);
                    }
                },
                None => {
                    assert(out@ =~= self@);
                    return out;
                },
            }
        }
    }
}

} // verus!
