use vstd::prelude::*;
use crate::ring::{enqueue, enqueue_all, RingBuffer, RING_USABLE};

verus! {

/// Line feed.
pub const LF: u8 = 0x0a;

/// Carriage return.
pub const CR: u8 = 0x0d;

/// Text as it goes on the line: each line feed is preceded by a carriage
/// return, every other byte passes through.
pub open spec fn crlf(s: Seq<u8>) -> Seq<u8>
    decreases s.len(),
{
    if s.len() == 0 {
        Seq::empty()
    } else if s.last() == LF {
        crlf(s.drop_last()) + seq![CR, LF]
    } else {
        crlf(s.drop_last()).push(s.last())
    }
}

/// What one pump step hands back to the device side.
pub struct Pump {
    /// The byte to put into the transmit register, if any.
    pub transmit: Option<u8>,
    /// Number of bytes queued for reading after the step.
    pub available: u32,
}

/// Duplex byte transport: a send ring the protocol fills and the device
/// drains, and a receive ring the device fills and the protocol drains.
pub struct Uart {
    send: RingBuffer,
    receive: RingBuffer,
}

impl Uart {
    pub closed spec fn wf(&self) -> bool {
        self.send.wf() && self.receive.wf()
    }

    /// Bytes queued for the device, oldest first.
    pub closed spec fn outgoing(&self) -> Seq<u8> {
        self.send@
    }

    /// Bytes received and not yet read, oldest first.
    pub closed spec fn incoming(&self) -> Seq<u8> {
        self.receive@
    }

    /// A transport with both rings empty.
    pub fn new() -> (r: Uart)
        ensures
            r.wf(),
            r.outgoing() == Seq::<u8>::empty(),
            r.incoming() == Seq::<u8>::empty(),
    {
        Uart { send: RingBuffer::new(), receive: RingBuffer::new() }
    }

    /// One step of device interaction. When the device is ready to transmit
    /// and output is pending, the oldest pending byte is handed out to be
    /// written to it. A byte read from the device is queued for reading (and
    /// dropped if the receive ring is full). Returns what to transmit and how
    /// many bytes are then available to read.
    pub fn send_receive(&mut self, tx_ready: bool, received: Option<u8>) -> (r: Pump)
        requires
            old(self).wf(),
        ensures
            final(self).wf(),
            tx_ready && old(self).outgoing().len() > 0 ==> r.transmit == Some(old(self).outgoing()[0])
                && final(self).outgoing() == old(self).outgoing().drop_first(),
            !(tx_ready && old(self).outgoing().len() > 0) ==> r.transmit.is_none()
                && final(self).outgoing() == old(self).outgoing(),
            final(self).incoming() == match received {
                Some(b) => enqueue(old(self).incoming(), b),
                None => old(self).incoming(),
            },
            r.available == final(self).incoming().len(),
    {
        let mut transmit: Option<u8> = None;
        if tx_ready && !self.send.is_empty() {
            transmit = self.send.pop();
        }
        if let Some(b) = received {
            self.receive.push(b);
        }
        Pump { transmit, available: self.receive.len() }
    }

    /// Whether a byte read from the device now would be kept; while it is
    /// false the device's byte is left where it is.
    pub fn receive_has_room(&self) -> (r: bool)
        requires
            self.wf(),
        ensures
            r == (self.incoming().len() < RING_USABLE),
    {
        self.receive.has_room()
    }

    /// Whether output is still waiting for the device.
    pub fn has_pending_output(&self) -> (r: bool)
        requires
            self.wf(),
        ensures
            r == (self.outgoing().len() > 0),
    {
        !self.send.is_empty()
    }

    /// Takes every pending output byte, oldest first, to be written to the
    /// device; the send ring is empty afterwards.
    pub fn flush_output(&mut self) -> (r: Vec<u8>)
        requires
            old(self).wf(),
        ensures
            final(self).wf(),
            r@ == old(self).outgoing(),
            final(self).outgoing() == Seq::<u8>::empty(),
            final(self).incoming() == old(self).incoming(),
    {
        let mut out: Vec<u8> = Vec::new();
        let ghost all = self.send@;
        while !self.send.is_empty()
            invariant
                self.wf(),
                all == out@ + self.send@,
                self.incoming() == old(self).incoming(),
            decreases self.send@.len(),
        {
            let ghost before = self.send@;
            if let Some(b) = self.send.pop() {
                out.push(b);
                assert(all == out@ + self.send@) by {
                    assert(before =~= seq![b] + self.send@);
                    assert(out@ + self.send@ =~= out@.drop_last() + before);
                }
            }
        }
        assert(out@ + self.send@ =~= out@);
        out
    }

    /// Drops every received byte that has not been read.
    pub fn discard_input(&mut self)
        requires
            old(self).wf(),
        ensures
            final(self).wf(),
            final(self).incoming() == Seq::<u8>::empty(),
            final(self).outgoing() == old(self).outgoing(),
    {
        self.receive.clear();
    }

    /// Queues `c` for sending; when the send ring is full it is dropped.
    pub fn write_byte(&mut self, c: u8)
        requires
            old(self).wf(),
        ensures
            final(self).wf(),
            final(self).outgoing() == enqueue(old(self).outgoing(), c),
            final(self).incoming() == old(self).incoming(),
    {
        self.send.push(c);
    }

    /// Queues each byte of `bytes` in order; those that find the send ring
    /// full are dropped.
    pub fn write_all(&mut self, bytes: &[u8])
        requires
            old(self).wf(),
        ensures
            final(self).wf(),
            final(self).outgoing() == enqueue_all(old(self).outgoing(), bytes@),
            final(self).incoming() == old(self).incoming(),
    {
        let mut i: usize = 0;
        while i < bytes.len()
            invariant
                self.wf(),
                i <= bytes@.len(),
                self.outgoing() == enqueue_all(old(self).outgoing(), bytes@.subrange(0, i as int)),
                self.incoming() == old(self).incoming(),
            decreases bytes@.len() - i,
        {
            assert(bytes@.subrange(0, i + 1).drop_last() =~= bytes@.subrange(0, i as int));
            self.write_byte(bytes[i]);
            i = i + 1;
        }
        assert(bytes@.subrange(0, bytes@.len() as int) =~= bytes@);
    }

    /// Takes the oldest received byte, or `None` when nothing is pending.
    pub fn read_byte(&mut self) -> (r: Option<u8>)
        requires
            old(self).wf(),
        ensures
            final(self).wf(),
            old(self).incoming().len() == 0 ==> r.is_none() && final(self).incoming() == old(
                self,
            ).incoming(),
            old(self).incoming().len() > 0 ==> r == Some(old(self).incoming()[0])
                && final(self).incoming() == old(self).incoming().drop_first(),
            final(self).outgoing() == old(self).outgoing(),
    {
        self.receive.pop()
    }

    /// Queues text for sending, with a carriage return before each line
    /// feed; bytes that find the send ring full are dropped.
    pub fn write_text(&mut self, text: &[u8])
        requires
            old(self).wf(),
        ensures
            final(self).wf(),
            final(self).outgoing() == enqueue_all(old(self).outgoing(), crlf(text@)),
            final(self).incoming() == old(self).incoming(),
    {
        let mut i: usize = 0;
        while i < text.len()
            invariant
                self.wf(),
                i <= text@.len(),
                self.outgoing() == enqueue_all(old(self).outgoing(), crlf(text@.subrange(0, i as int))),
                self.incoming() == old(self).incoming(),
            decreases text@.len() - i,
        {
            let c = text[i];
            let ghost pre = crlf(text@.subrange(0, i as int));
            let ghost q0 = old(self).outgoing();
            assert(text@.subrange(0, i + 1).drop_last() =~= text@.subrange(0, i as int));
            if c == LF {
                self.write_byte(CR);
                self.write_byte(c);
                assert((pre + seq![CR, LF]).drop_last() =~= pre.push(CR));
                assert(pre.push(CR).drop_last() =~= pre);
                assert(crlf(text@.subrange(0, i + 1)) == pre + seq![CR, LF]);
                assert((pre + seq![CR, LF]).last() == LF);
                assert(enqueue_all(q0, pre.push(CR)) == enqueue(enqueue_all(q0, pre), CR));
                assert(enqueue_all(q0, pre + seq![CR, LF]) == enqueue(
                    enqueue(enqueue_all(q0, pre), CR),
                    LF,
                ));
            } else {
                self.write_byte(c);
                assert(pre.push(c).drop_last() =~= pre);
                assert(crlf(text@.subrange(0, i + 1)) == pre.push(c));
                assert(enqueue_all(q0, pre.push(c)) == enqueue(enqueue_all(q0, pre), c));
            }
            i = i + 1;
        }
        assert(text@.subrange(0, text@.len() as int) =~= text@);
    }
}

} // verus!
