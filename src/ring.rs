use vstd::prelude::*;

verus! {

/// Number of slots in a ring; one is always kept free, so a ring holds at
/// most `RING_SIZE - 1` bytes.
pub const RING_SIZE: u32 = 2048;

/// Mask that wraps a cursor back into `[0, RING_SIZE)`.
pub const RING_MASK: u32 = 2047;

/// Most bytes a ring can hold at once.
pub const RING_USABLE: u32 = 2047;

/// The queue after offering `b` to a ring holding `q`: a full ring drops it.
pub open spec fn enqueue(q: Seq<u8>, b: u8) -> Seq<u8> {
    if q.len() < RING_USABLE {
        q.push(b)
    } else {
        q
    }
}

/// The queue after offering every byte of `s`, in order.
pub open spec fn enqueue_all(q: Seq<u8>, s: Seq<u8>) -> Seq<u8>
    decreases s.len(),
{
    if s.len() == 0 {
        q
    } else {
        enqueue(enqueue_all(q, s.drop_last()), s.last())
    }
}

/// Offering `a` and then `b` is offering `a + b`.
pub proof fn lemma_enqueue_all_concat(q: Seq<u8>, a: Seq<u8>, b: Seq<u8>)
    ensures
        enqueue_all(enqueue_all(q, a), b) == enqueue_all(q, a + b),
    decreases b.len(),
{
    if b.len() == 0 {
        assert(a + b =~= a);
    } else {
        lemma_enqueue_all_concat(q, a, b.drop_last());
        assert((a + b).drop_last() =~= a + b.drop_last());
        assert((a + b).last() == b.last());
    }
}

/// While everything offered fits, nothing is dropped: the bytes come out
/// unaltered and in the order they went in.
pub proof fn lemma_enqueue_all_fits(q: Seq<u8>, s: Seq<u8>)
    requires
        q.len() + s.len() <= RING_USABLE,
    ensures
        enqueue_all(q, s) == q + s,
    decreases s.len(),
{
    if s.len() > 0 {
        lemma_enqueue_all_fits(q, s.drop_last());
        assert(q + s.drop_last() + seq![s.last()] =~= q + s);
    } else {
        assert(q + s =~= q);
    }
}

/// Once a ring is full, further bytes are dropped and the queued bytes are
/// left untouched.
pub proof fn lemma_enqueue_all_full(q: Seq<u8>, s: Seq<u8>)
    requires
        q.len() == RING_USABLE,
    ensures
        enqueue_all(q, s) == q,
    decreases s.len(),
{
    if s.len() > 0 {
        lemma_enqueue_all_full(q, s.drop_last());
    }
}

/// Fixed-capacity FIFO of bytes with a read cursor `start` and a write cursor
/// `end`; the slot just before `start` is never written.
pub struct RingBuffer {
    slots: Vec<u8>,
    start: u32,
    end: u32,
}

proof fn lemma_mask(x: u32)
    requires
        x <= RING_SIZE,
    ensures
        x & RING_MASK == x % RING_SIZE,
{
    assert(x <= 2048 ==> x & 2047 == x % 2048) by (bit_vector);
}

impl RingBuffer {
    /// Slots allocated, cursors inside them.
    pub closed spec fn wf(&self) -> bool {
        &&& self.slots@.len() == RING_SIZE
        &&& self.start < RING_SIZE
        &&& self.end < RING_SIZE
    }

    /// Number of bytes queued.
    pub closed spec fn count(&self) -> nat {
        ((self.end + RING_SIZE - self.start) % (RING_SIZE as int)) as nat
    }

    /// The bytes queued, oldest first.
    pub closed spec fn view(&self) -> Seq<u8> {
        Seq::new(self.count(), |k: int| self.slots@[(self.start + k) % (RING_SIZE as int)])
    }

    /// An empty ring.
    pub fn new() -> (r: RingBuffer)
        ensures
            r.wf(),
            r@ == Seq::<u8>::empty(),
    {
        let r = RingBuffer { slots: vec![0u8; 2048], start: 0, end: 0 };
        assert(r@ =~= Seq::<u8>::empty());
        r
    }

    /// Number of bytes queued.
    pub fn len(&self) -> (r: u32)
        requires
            self.wf(),
        ensures
            r == self@.len(),
    {
        if self.end < self.start {
            RING_SIZE + self.end - self.start
        } else {
            self.end - self.start
        }
    }

    /// Whether nothing is queued.
    pub fn is_empty(&self) -> (r: bool)
        requires
            self.wf(),
        ensures
            r == (self@.len() == 0),
    {
        self.start == self.end
    }

    /// Whether one more byte would be kept.
    pub fn has_room(&self) -> (r: bool)
        requires
            self.wf(),
        ensures
            r == (self@.len() < RING_USABLE),
    {
        proof {
            lemma_mask((self.end + 1) as u32);
        }
        ((self.end + 1) & RING_MASK) != self.start
    }

    /// Appends `b`; when the ring is full the byte is dropped and the queued
    /// bytes stay as they were.
    pub fn push(&mut self, b: u8)
        requires
            old(self).wf(),
        ensures
            final(self).wf(),
            final(self)@ == enqueue(old(self)@, b),
    {
        proof {
            lemma_mask((self.end + 1) as u32);
        }
        let next: u32 = (self.end + 1) & RING_MASK;
        if next == self.start {
            return;
        }
        let ghost before = self@;
        self.slots.set(self.end as usize, b);
        self.end = next;
        assert(self@ =~= before.push(b));
    }

    /// Removes and returns the oldest byte, or `None` when the ring is empty.
    pub fn pop(&mut self) -> (r: Option<u8>)
        requires
            old(self).wf(),
        ensures
            final(self).wf(),
            old(self)@.len() == 0 ==> r.is_none() && final(self)@ == old(self)@,
            old(self)@.len() > 0 ==> r == Some(old(self)@[0]) && final(self)@ == old(self)@.drop_first(),
    {
        if self.start == self.end {
            return None;
        }
        let ghost before = self@;
        let b = self.slots[self.start as usize];
        proof {
            lemma_mask((self.start + 1) as u32);
        }
        self.start = (self.start + 1) & RING_MASK;
        assert(self@ =~= before.drop_first());
        Some(b)
    }

    /// Drops every queued byte.
    pub fn clear(&mut self)
        requires
            old(self).wf(),
        ensures
            final(self).wf(),
            final(self)@ == Seq::<u8>::empty(),
    {
        self.start = self.end;
        assert(self@ =~= Seq::<u8>::empty());
    }
}

} // verus!
