//! The console UART as the library sees it: bytes received by the interrupt
//! handler wait in a ring; bytes to transmit wait in an outgoing queue that
//! the driver drains into the data register.

use vstd::prelude::*;
use vstd::string::StringSliceAdditionalSpecFns;

use crate::ringbuf::RingBuffer;

verus! {

/// Console state: received bytes not yet read, and bytes not yet sent.
pub struct Serial {
    rx: RingBuffer,
    tx: Vec<u8>,
}

impl Serial {
    /// The receive ring is in order.
    pub closed spec fn wf(&self) -> bool {
        self.rx.wf()
    }

    /// Received bytes the shell has not read yet, oldest first.
    pub closed spec fn received(&self) -> Seq<u8> {
        self.rx@
    }

    /// Bytes queued for transmission, in order.
    pub closed spec fn pending(&self) -> Seq<u8> {
        self.tx@
    }

    /// A console with nothing received and nothing to send.
    pub fn new() -> (s: Serial)
        ensures
            s.wf(),
            s.received() == Seq::<u8>::empty(),
            s.pending() == Seq::<u8>::empty(),
    {
        Serial { rx: RingBuffer::new(), tx: Vec::new() }
    }

    /// Queues one byte for transmission.
    pub fn wb(&mut self, b: u8)
        requires
            old(self).wf(),
        ensures
            final(self).wf(),
            final(self).received() == old(self).received(),
            final(self).pending() == old(self).pending().push(b),
    {
        self.tx.push(b);
    }

    fn send(&mut self, bytes: &[u8])
        requires
            old(self).wf(),
        ensures
            final(self).wf(),
            final(self).received() == old(self).received(),
            final(self).pending() == old(self).pending() + bytes@,
    {
        let ghost before = self.tx@;
        let mut i: usize = 0;
        while i < bytes.len()
            invariant
                i <= bytes@.len(),
                self.wf(),
                self.rx@ == old(self).rx@,
                self.tx@ == before + bytes@.take(i as int),
            decreases bytes@.len() - i,
        {
            self.tx.push(bytes[i]);
            assert(self.tx@ =~= before + bytes@.take(i + 1));
            i = i + 1;
        }
        assert(bytes@.take(bytes@.len() as int) =~= bytes@);
    }

    /// Queues the bytes of `s`.
    pub fn print(&mut self, s: &str)
        requires
            old(self).wf(),
        ensures
            final(self).wf(),
            final(self).received() == old(self).received(),
            final(self).pending() == old(self).pending() + s.spec_bytes(),
    {
        self.send(s.as_bytes());
    }

    /// Queues the first `len` bytes of a line buffer.
    pub fn printb(&mut self, s: &[u8; 256], len: usize)
        requires
            old(self).wf(),
            len <= 256,
        ensures
            final(self).wf(),
            final(self).received() == old(self).received(),
            final(self).pending() == old(self).pending() + s@.take(len as int),
    {
        let all = s.as_slice();
        self.send(&all[0..len]);
    }

    /// Queues the bytes of `v`.
    pub fn printv(&mut self, v: &Vec<u8>)
        requires
            old(self).wf(),
        ensures
            final(self).wf(),
            final(self).received() == old(self).received(),
            final(self).pending() == old(self).pending() + v@,
    {
        self.send(v.as_slice());
    }

    /// Takes the oldest received byte, if any.
    pub fn rb(&mut self) -> (r: Option<u8>)
        requires
            old(self).wf(),
        ensures
            final(self).wf(),
            final(self).pending() == old(self).pending(),
            old(self).received().len() == 0 ==> r is None && final(self).received() == old(self).received(),
            old(self).received().len() > 0 ==> r == Some(old(self).received()[0]) && final(self).received() == old(self).received().drop_first(),
    {
        self.rx.pop()
    }

    /// Stores a byte that the receive interrupt read; it is dropped when 255
    /// bytes are already waiting.
    pub fn handle_rx(&mut self, b: u8)
        requires
            old(self).wf(),
        ensures
            final(self).wf(),
            final(self).pending() == old(self).pending(),
            old(self).received().len() == 255 ==> final(self).received() == old(self).received(),
            old(self).received().len() < 255 ==> final(self).received() == old(self).received().push(b),
    {
        self.rx.push(b);
    }

    /// Hands over every queued outgoing byte, leaving the queue empty.
    pub fn take_pending(&mut self) -> (out: Vec<u8>)
        requires
            old(self).wf(),
        ensures
            final(self).wf(),
            out@ == old(self).pending(),
            final(self).pending() == Seq::<u8>::empty(),
            final(self).received() == old(self).received(),
    {
        let mut out: Vec<u8> = Vec::new();
        std::mem::swap(&mut out, &mut self.tx);
        out
    }
}

} // verus!
