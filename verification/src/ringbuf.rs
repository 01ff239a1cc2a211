//! A byte ring of 256 slots: one slot stays free to tell full from empty, so
//! it holds at most 255 bytes. The UART receive interrupt pushes, the shell pops.

use vstd::prelude::*;

verus! {

/// Number of slots in the ring.
pub const RING_SLOTS: usize = 256;

/// Most bytes the ring holds at once.
pub const RING_CAPACITY: usize = 255;

pub struct RingBuffer {
    buf: Vec<u8>,
    head: usize,
    tail: usize,
}

impl RingBuffer {
    /// The slots exist and both cursors point at one of them.
    pub closed spec fn wf(&self) -> bool {
        &&& self.buf@.len() == RING_SLOTS
        &&& self.head < RING_SLOTS
        &&& self.tail < RING_SLOTS
    }

    closed spec fn count(&self) -> int {
        if self.head >= self.tail {
            self.head - self.tail
        } else {
            self.head + RING_SLOTS - self.tail
        }
    }
}

impl RingBuffer {
    /// The write cursor (next slot to fill) and the read cursor (next slot to take).
    pub closed spec fn cursors(&self) -> (usize, usize) {
        (self.head, self.tail)
    }
}

/// The slot `i` places after `tail`, wrapping around.
pub open spec fn slot(tail: int, i: int) -> int {
    if tail + i < RING_SLOTS {
        tail + i
    } else {
        tail + i - RING_SLOTS
    }
}

impl View for RingBuffer {
    type V = Seq<u8>;

    /// The queued bytes, oldest first.
    closed spec fn view(&self) -> Seq<u8> {
        Seq::new(
            self.count() as nat,
            |i: int| self.buf@[slot(self.tail as int, i)],
        )
    }
}

impl RingBuffer {
    /// An empty ring.
    pub fn new() -> (r: RingBuffer)
        ensures
            r.wf(),
            r@ == Seq::<u8>::empty(),
            r.cursors() == (0usize, 0usize),
    {
        let r = RingBuffer { buf: vec![0u8; RING_SLOTS], head: 0, tail: 0 };
        assert(r@ =~= Seq::<u8>::empty());
        r
    }

    /// Queues `b`. A full ring drops the byte and stays as it was.
    pub fn push(&mut self, b: u8)
        requires
            old(self).wf(),
        ensures
            final(self).wf(),
            old(self)@.len() == RING_CAPACITY ==> final(self)@ == old(self)@,
            old(self)@.len() < RING_CAPACITY ==> final(self)@ == old(self)@.push(b),
            final(self)@.len() <= RING_CAPACITY,
    {
        let ghost before = self@;
        let head = self.head;
        let next = (head + 1) % RING_SLOTS;
        if next == self.tail {
            return;
        }
        self.buf.set(head, b);
        self.head = next;
        proof {
            assert(self@ =~= before.push(b)) by {
                assert forall|i: int| 0 <= i < before.len() implies self@[i] == before[i] by {
                    assert(slot(self.tail as int, i) != head as int);
                }
                assert(slot(self.tail as int, before.len() as int) == head as int);
            }
        }
    }

    /// Takes the oldest byte, or `None` when the ring is empty.
    pub fn pop(&mut self) -> (r: Option<u8>)
        requires
            old(self).wf(),
        ensures
            final(self).wf(),
            old(self)@.len() == 0 ==> r is None && final(self)@ == old(self)@,
            old(self)@.len() > 0 ==> r == Some(old(self)@[0]) && final(self)@
                == old(self)@.drop_first(),
    {
        let ghost before = self@;
        let tail = self.tail;
        if tail == self.head {
            return None;
        }
        let b = self.buf[tail];
        self.tail = (tail + 1) % RING_SLOTS;
        proof {
            assert(b == before[0]);
            assert(self@ =~= before.drop_first()) by {
                assert forall|i: int| 0 <= i < before.len() - 1 implies self@[i] == before[i + 1] by {
                    assert(slot(self.tail as int, i) == slot(tail as int, i + 1));
                }
            }
        }
        Some(b)
    }
}

} // verus!
