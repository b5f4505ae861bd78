use vstd::prelude::*;
use crate::crc::{crc16, crc_of};
use crate::header::{header_length, parse_header};
use crate::ring::{enqueue_all, lemma_enqueue_all_concat};
use crate::uart::Uart;

verus! {

/// Start of a packet with a 128-byte payload.
pub const SOH: u8 = 0x01;

/// Start of a packet with a 1024-byte payload.
pub const STX: u8 = 0x02;

/// End of transfer.
pub const EOT: u8 = 0x04;

/// Positive acknowledgement.
pub const ACK: u8 = 0x06;

/// Backspace, sent after the cancel bytes of an abort.
pub const BSP: u8 = 0x08;

/// Negative acknowledgement: the sender should retransmit.
pub const NAK: u8 = 0x15;

/// Cancel: the peer gives up.
pub const CAN: u8 = 0x18;

/// Mode request: asks the sender for CRC-checked packets.
pub const CRC: u8 = 0x43;

/// Marker, sequence number and its complement.
pub const HEADER_SIZE: usize = 3;

/// Big-endian CRC after the payload.
pub const TRAILER_SIZE: usize = 2;

pub const PACKET_OVERHEAD: usize = 5;

/// Index of the sequence number in a frame.
pub const SEQNO: usize = 1;

/// Index of the sequence number's complement in a frame.
pub const SEQNO_COMPLEMENT: usize = 2;

/// CAN bytes tolerated before the handshake packet.
pub const HANDSHAKE_CAN_TOLERANCE: u32 = 3;

/// Microseconds a single byte is waited for.
pub const BYTE_TIMEOUT_USECS: u32 = 1000000;

/// The eight bytes that tell the peer this side gives up.
pub open spec fn abort_sequence() -> Seq<u8> {
    seq![CAN, CAN, CAN, CAN, BSP, BSP, BSP, BSP]
}

/// Outcome of receiving one packet.
#[derive(PartialEq, Eq, Structural, Clone, Copy, Debug)]
pub enum PacketResult {
    /// A packet arrived intact; its payload has this many bytes (0 for EOT).
    Received(u32),
    /// The peer cancelled, or the marker byte was not one of the protocol's.
    Abort,
    /// A byte did not come in time.
    Timeout,
    /// The sequence complement or the CRC did not match.
    Error,
}

/// Outcome of one poll while waiting for a byte.
#[derive(PartialEq, Eq, Structural, Clone, Copy, Debug)]
pub enum Poll {
    /// Nothing yet and time remains: poll again.
    Wait,
    /// The next received byte.
    Byte(u8),
    /// The window ran out, or the transport said a byte was there and none was.
    Timeout,
}

/// Decides one poll of a bounded byte read. `expired` is whether the wait's
/// timer has run out, `available` what the transport's pump step just
/// reported.
pub fn getchar(uart: &mut Uart, expired: bool, available: u32) -> (r: Poll)
    requires
        old(uart).wf(),
    ensures
        final(uart).wf(),
        final(uart).outgoing() == old(uart).outgoing(),
        expired ==> r == Poll::Timeout && final(uart).incoming() == old(uart).incoming(),
        !expired && available == 0 ==> r == Poll::Wait && final(uart).incoming() == old(
            uart,
        ).incoming(),
        !expired && available > 0 && old(uart).incoming().len() == 0 ==> r == Poll::Timeout
            && final(uart).incoming() == old(uart).incoming(),
        !expired && available > 0 && old(uart).incoming().len() > 0 ==> r == Poll::Byte(
            old(uart).incoming()[0],
        ) && final(uart).incoming() == old(uart).incoming().drop_first(),
{
    if expired {
        return Poll::Timeout;
    }
    if available == 0 {
        return Poll::Wait;
    }
    match uart.read_byte() {
        Some(b) => Poll::Byte(b),
        None => Poll::Timeout,
    }
}

/// Payload size announced by a marker byte.
pub open spec fn payload_size(marker: u8) -> nat {
    if marker == SOH {
        128
    } else if marker == STX {
        1024
    } else {
        0
    }
}

/// Whether a marker starts a packet with a payload.
pub open spec fn is_data_marker(marker: u8) -> bool {
    marker == SOH || marker == STX
}

/// Length of the whole frame that a data marker starts.
pub open spec fn frame_len(marker: u8) -> nat {
    payload_size(marker) + PACKET_OVERHEAD as nat
}

/// Verdict on a complete frame: the sequence byte must be the complement's
/// bitwise NOT, and the CRC over payload and trailer must be zero.
pub open spec fn frame_verdict(f: Seq<u8>) -> PacketResult {
    if f[SEQNO as int] != f[SEQNO_COMPLEMENT as int] ^ 0xffu8 {
        PacketResult::Error
    } else if crc_of(f.subrange(HEADER_SIZE as int, f.len() as int)) != 0 {
        PacketResult::Error
    } else {
        PacketResult::Received(payload_size(f[0]) as u32)
    }
}

/// What a reader holding `f` (with `cans` CAN bytes still tolerated) makes
/// of the next bounded read: `None` while the packet is incomplete.
pub open spec fn reader_outcome(f: Seq<u8>, cans: u32, event: Option<u8>) -> Option<PacketResult> {
    match event {
        None => Some(PacketResult::Timeout),
        Some(c) => if f.len() == 0 {
            if c == EOT {
                Some(PacketResult::Received(0))
            } else if c == CAN {
                if cans > 0 {
                    None
                } else {
                    Some(PacketResult::Abort)
                }
            } else if is_data_marker(c) {
                None
            } else {
                Some(PacketResult::Abort)
            }
        } else {
            let g = f.push(c);
            if g.len() == frame_len(g[0]) {
                Some(frame_verdict(g))
            } else {
                None
            }
        },
    }
}

/// The frame a reader holds after the next bounded read.
pub open spec fn frame_after(f: Seq<u8>, event: Option<u8>) -> Seq<u8> {
    match event {
        None => f,
        Some(c) => if f.len() == 0 {
            if is_data_marker(c) {
                seq![c]
            } else {
                f
            }
        } else {
            f.push(c)
        },
    }
}

/// CAN bytes a reader holding `f` still tolerates after the next read.
pub open spec fn cans_after(f: Seq<u8>, cans: u32, event: Option<u8>) -> u32 {
    if f.len() == 0 && event == Some(CAN) && cans > 0 {
        (cans - 1) as u32
    } else {
        cans
    }
}

/// Assembles one packet from the bytes a bounded read delivers.
pub struct PacketReader {
    buffer: Vec<u8>,
    cans_left: u32,
}

impl PacketReader {
    /// Either nothing has been taken, or a data marker and less than its
    /// frame, or (after a verdict) the whole frame.
    pub closed spec fn wf(&self) -> bool {
        let f = self.buffer@;
        f.len() == 0 || (is_data_marker(f[0]) && f.len() <= frame_len(f[0]))
    }

    /// Frame bytes taken so far, marker first.
    pub closed spec fn frame(&self) -> Seq<u8> {
        self.buffer@
    }

    /// CAN bytes still taken as line noise before the marker.
    pub closed spec fn cans_left(&self) -> u32 {
        self.cans_left
    }

    /// A reader waiting for a marker, tolerating `max_can_count` CAN bytes.
    pub fn new(max_can_count: u32) -> (r: PacketReader)
        ensures
            r.wf(),
            r.frame() == Seq::<u8>::empty(),
            r.cans_left() == max_can_count,
    {
        PacketReader { buffer: Vec::new(), cans_left: max_can_count }
    }

    /// The frame taken so far.
    pub fn frame_bytes(&self) -> (r: &Vec<u8>)
        ensures
            r@ == self.frame(),
    {
        &self.buffer
    }

    /// Takes the result of one bounded read (`None` for a timeout). Returns
    /// `None` while the packet is incomplete, else its outcome.
    pub fn receive_packet(&mut self, event: Option<u8>) -> (r: Option<PacketResult>)
        requires
            old(self).wf(),
            old(self).frame().len() == 0 || old(self).frame().len() < frame_len(
                old(self).frame()[0],
            ),
        ensures
            final(self).wf(),
            r == reader_outcome(old(self).frame(), old(self).cans_left(), event),
            final(self).frame() == frame_after(old(self).frame(), event),
            final(self).cans_left() == cans_after(old(self).frame(), old(self).cans_left(), event),
            r.is_none() ==> final(self).frame().len() == 0 || final(self).frame().len() < frame_len(
                final(self).frame()[0],
            ),
            event.is_none() ==> r == Some(PacketResult::Timeout),
            old(self).frame().len() == 0 ==> match event {
                None => true,
                Some(c) => if c == EOT {
                    r == Some(PacketResult::Received(0)) && final(self).frame() == old(self).frame()
                } else if c == CAN {
                    if old(self).cans_left() > 0 {
                        r.is_none() && final(self).frame() == old(self).frame()
                            && final(self).cans_left() == old(self).cans_left() - 1
                    } else {
                        r == Some(PacketResult::Abort)
                    }
                } else if is_data_marker(c) {
                    r.is_none() && final(self).frame() == seq![c]
                } else {
                    r == Some(PacketResult::Abort)
                },
            },
            old(self).frame().len() > 0 ==> match event {
                None => true,
                Some(c) => {
                    let f = old(self).frame().push(c);
                    &&& final(self).frame() == f
                    &&& f.len() == frame_len(f[0]) ==> r == Some(frame_verdict(f))
                    &&& f.len() < frame_len(f[0]) ==> r.is_none()
                },
            },
    {
        let c = match event {
            None => {
                return Some(PacketResult::Timeout);
            },
            Some(c) => c,
        };
        if self.buffer.len() == 0 {
            if c == EOT {
                return Some(PacketResult::Received(0));
            } else if c == CAN {
                if self.cans_left > 0 {
                    self.cans_left = self.cans_left - 1;
                    return None;
                }
                return Some(PacketResult::Abort);
            } else if c == SOH || c == STX {
                self.buffer.push(c);
                assert(self.buffer@ =~= seq![c]);
                return None;
            } else {
                return Some(PacketResult::Abort);
            }
        }
        self.buffer.push(c);
        let marker = self.buffer[0];
        let size: usize = if marker == SOH {
            128
        } else {
            1024
        };
        if self.buffer.len() < size + PACKET_OVERHEAD {
            return None;
        }
        if self.buffer[SEQNO] != self.buffer[SEQNO_COMPLEMENT] ^ 0xffu8 {
            return Some(PacketResult::Error);
        }
        let checked = slice_from(&self.buffer, HEADER_SIZE);
        if crc16(checked) != 0 {
            return Some(PacketResult::Error);
        }
        Some(PacketResult::Received(size as u32))
    }
}

/// The bytes of `v` from index `from` on.
fn slice_from(v: &Vec<u8>, from: usize) -> (r: &[u8])
    requires
        from <= v@.len(),
    ensures
        r@ == v@.subrange(from as int, v@.len() as int),
{
    vstd::slice::slice_subrange(v.as_slice(), from, v.len())
}

/// Why a transfer failed.
#[derive(PartialEq, Eq, Structural, Clone, Copy, Debug)]
pub enum TransferError {
    /// No byte came within the wait window during the data or trailer phase.
    Timeout,
    /// A bad sequence complement, a bad CRC, or a malformed handshake header.
    Framing,
    /// The peer cancelled, or sent a byte that starts no packet.
    Abort,
    /// More data than declared, or a non-empty packet where the transfer
    /// should have ended.
    ProtocolViolation,
    /// The end of transfer came before the declared length was received.
    ShortTransfer,
    /// The declared length does not fit in the destination.
    TooLarge,
}

/// Phase of a receive session.
#[derive(PartialEq, Eq, Structural, Clone, Copy, Debug)]
pub enum Phase {
    /// Waiting for the packet that names the file and its length.
    Handshake,
    /// Receiving data packets.
    Data,
    /// Waiting for the packet that closes the batch.
    Trailer,
}

/// What the session asks of its driver after an event.
#[derive(PartialEq, Eq, Clone, Copy, Debug)]
pub enum Progress {
    /// Wait for the next byte; when `flush` is set, first send all pending
    /// output.
    Continue { flush: bool },
    /// The transfer is over: the file's length, or why it failed. Pending
    /// output is to be sent.
    Finished(Result<u32, TransferError>),
}

/// How a session reacts to a completed packet.
pub struct Reaction {
    pub phase: Phase,
    pub total: u32,
    pub expected: u8,
    pub received: u32,
    /// Bytes queued for the peer, in order.
    pub output: Seq<u8>,
    /// Whether unread input is dropped.
    pub discard: bool,
    pub progress: Progress,
    /// Payload bytes copied to the destination at the old offset.
    pub copied: nat,
}

pub open spec fn stay(phase: Phase, total: u32, expected: u8, received: u32, output: Seq<u8>, discard: bool, flush: bool) -> Reaction {
    Reaction { phase, total, expected, received, output, discard, progress: Progress::Continue { flush }, copied: 0 }
}

pub open spec fn fail(phase: Phase, total: u32, expected: u8, received: u32, output: Seq<u8>, discard: bool, e: TransferError) -> Reaction {
    Reaction { phase, total, expected, received, output, discard, progress: Progress::Finished(Err(e)), copied: 0 }
}

/// The payload of a complete frame.
pub open spec fn payload_of(g: Seq<u8>) -> Seq<u8> {
    g.subrange(HEADER_SIZE as int, g.len() - TRAILER_SIZE)
}

/// The session's rules: its reaction, in `phase` with declared length
/// `total`, expected sequence `expected` and `received` bytes stored, to a
/// packet outcome `res` on frame `g`, with a destination of `dest_len` bytes.
pub open spec fn react(phase: Phase, total: u32, expected: u8, received: u32, res: PacketResult, g: Seq<u8>, dest_len: nat) -> Reaction {
    let abort = abort_sequence();
    match res {
        PacketResult::Received(len) => match phase {
            Phase::Handshake => if g.len() == 0 || g[SEQNO as int] != 0 {
                stay(phase, total, expected, received, seq![NAK, CRC], true, false)
            } else {
                match header_length(payload_of(g)) {
                    None => fail(phase, total, expected, received, abort, true, TransferError::Framing),
                    Some(t) => if t > dest_len {
                        fail(phase, total, expected, received, abort, true, TransferError::TooLarge)
                    } else {
                        stay(Phase::Data, t, 1, 0, seq![ACK, CRC], false, false)
                    },
                }
            },
            Phase::Data => if len == 0 {
                if received < total {
                    fail(phase, total, expected, received, seq![ACK, CRC] + abort, true, TransferError::ShortTransfer)
                } else {
                    stay(Phase::Trailer, total, expected, received, seq![ACK, CRC], false, true)
                }
            } else if g[SEQNO as int] != expected {
                stay(phase, total, expected, received, seq![NAK], true, true)
            } else if received >= total {
                fail(phase, total, expected, received, abort, true, TransferError::ProtocolViolation)
            } else {
                let n: nat = if len <= total - received { len as nat } else { (total - received) as nat };
                if received + n > dest_len {
                    fail(phase, total, expected, received, abort, true, TransferError::TooLarge)
                } else {
                    Reaction {
                        phase,
                        total,
                        expected: ((expected + 1) % 256) as u8,
                        received: (received + n) as u32,
                        output: seq![ACK],
                        discard: false,
                        progress: Progress::Continue { flush: false },
                        copied: n,
                    }
                }
            },
            Phase::Trailer => if len == 0 {
                Reaction {
                    phase,
                    total,
                    expected,
                    received,
                    output: seq![ACK],
                    discard: false,
                    progress: Progress::Finished(Ok(total)),
                    copied: 0,
                }
            } else {
                fail(phase, total, expected, received, abort, true, TransferError::ProtocolViolation)
            },
        },
        PacketResult::Timeout => if phase == Phase::Handshake {
            stay(phase, total, expected, received, seq![CRC], true, false)
        } else {
            fail(phase, total, expected, received, abort, true, TransferError::Timeout)
        },
        PacketResult::Error => fail(phase, total, expected, received, abort, true, TransferError::Framing),
        PacketResult::Abort => if phase == Phase::Handshake {
            fail(phase, total, expected, received, seq![ACK], false, TransferError::Abort)
        } else {
            fail(phase, total, expected, received, Seq::empty(), false, TransferError::Abort)
        },
    }
}

/// A data packet that repeats the previous sequence number (a retransmit
/// of a packet already stored) is answered with NAK; the destination, the
/// stored count and the expected sequence stay as they were.
pub proof fn lemma_duplicate_is_nacked(total: u32, expected: u8, received: u32, len: u32, g: Seq<u8>, dest_len: nat)
    requires
        len > 0,
        g.len() == len + PACKET_OVERHEAD,
        g[SEQNO as int] as int == (expected as int + 255) % 256,
    ensures
        ({
            let x = react(Phase::Data, total, expected, received, PacketResult::Received(len), g, dest_len);
            &&& x.output == seq![NAK]
            &&& x.copied == 0
            &&& x.received == received
            &&& x.expected == expected
            &&& x.phase == Phase::Data
            &&& x.progress == (Progress::Continue { flush: true })
        }),
{
}

/// `d` with `s` written over it from index `at`.
pub open spec fn splice(d: Seq<u8>, at: int, s: Seq<u8>) -> Seq<u8> {
    d.subrange(0, at) + s + d.subrange(at + s.len(), d.len() as int)
}

/// CAN bytes tolerated before the marker of a packet in `phase`.
pub open spec fn can_tolerance(phase: Phase) -> u32 {
    if phase == Phase::Handshake {
        HANDSHAKE_CAN_TOLERANCE
    } else {
        0
    }
}

/// Sends the abort sequence (four CAN, four backspaces) and drops unread
/// input.
pub fn abort_file(uart: &mut Uart)
    requires
        old(uart).wf(),
    ensures
        final(uart).wf(),
        final(uart).outgoing() == enqueue_all(old(uart).outgoing(), abort_sequence()),
        final(uart).incoming() == Seq::<u8>::empty(),
{
    let bytes: [u8; 8] = [CAN, CAN, CAN, CAN, BSP, BSP, BSP, BSP];
    uart.write_all(bytes.as_slice());
    assert(bytes@ =~= abort_sequence());
    uart.discard_input();
}

/// State of one file reception.
pub struct Session {
    phase: Phase,
    reader: PacketReader,
    total_length: u32,
    expected_packet: u8,
    bytes_received: u32,
}

impl Session {
    /// The reader is waiting for more bytes of its packet, and no more has
    /// been stored than declared.
    pub closed spec fn wf(&self) -> bool {
        &&& self.reader.wf()
        &&& self.reader.frame().len() == 0 || self.reader.frame().len() < frame_len(
            self.reader.frame()[0],
        )
        &&& self.bytes_received <= self.total_length
    }

    pub closed spec fn phase(&self) -> Phase {
        self.phase
    }

    pub closed spec fn reader(&self) -> PacketReader {
        self.reader
    }

    /// Declared length of the file.
    pub closed spec fn total(&self) -> u32 {
        self.total_length
    }

    /// Sequence number the next data packet must carry.
    pub closed spec fn expected(&self) -> u8 {
        self.expected_packet
    }

    /// Bytes stored in the destination so far.
    pub closed spec fn received(&self) -> u32 {
        self.bytes_received
    }

    /// Opens a session: drops stale input and asks the sender for
    /// CRC-checked packets.
    pub fn new(uart: &mut Uart) -> (r: Session)
        requires
            old(uart).wf(),
        ensures
            r.wf(),
            r.phase() == Phase::Handshake,
            r.reader().frame() == Seq::<u8>::empty(),
            r.reader().cans_left() == HANDSHAKE_CAN_TOLERANCE,
            r.received() == 0,
            final(uart).wf(),
            final(uart).outgoing() == enqueue_all(old(uart).outgoing(), seq![CRC]),
            final(uart).incoming() == Seq::<u8>::empty(),
    {
        uart.discard_input();
        let request: [u8; 1] = [CRC];
        uart.write_all(request.as_slice());
        assert(request@ =~= seq![CRC]);
        Session {
            phase: Phase::Handshake,
            reader: PacketReader::new(HANDSHAKE_CAN_TOLERANCE),
            total_length: 0,
            expected_packet: 0,
            bytes_received: 0,
        }
    }
}

/// The effect of reaction `x` on frame `g`: session `s0` became `s1`, the
/// transport `u0` became `u1`, the destination `d0` became `d1`, and `r`
/// was returned.
pub open spec fn applied(x: Reaction, g: Seq<u8>, s0: Session, s1: Session, u0: Uart, u1: Uart, d0: Seq<u8>, d1: Seq<u8>, r: Progress) -> bool {
    &&& r == x.progress
    &&& u1.outgoing() == enqueue_all(u0.outgoing(), x.output)
    &&& x.discard ==> u1.incoming() == Seq::<u8>::empty()
    &&& !x.discard ==> u1.incoming() == u0.incoming()
    &&& x.copied == 0 ==> d1 == d0
    &&& x.copied > 0 ==> d1 == splice(d0, s0.received() as int, g.subrange(HEADER_SIZE as int, HEADER_SIZE + x.copied))
    &&& r is Continue ==> {
        &&& s1.wf()
        &&& s1.phase() == x.phase
        &&& s1.total() == x.total
        &&& s1.expected() == x.expected
        &&& s1.received() == x.received
        &&& s1.reader().frame() == Seq::<u8>::empty()
        &&& s1.reader().cans_left() == can_tolerance(x.phase)
    }
}

impl Session {
    /// Acts on the outcome of a completed packet, whose frame the reader
    /// holds (empty for an end of transfer).
    fn on_packet(&mut self, uart: &mut Uart, dest: &mut Vec<u8>, res: PacketResult) -> (r: Progress)
        requires
            old(uart).wf(),
            old(self).reader.wf(),
            old(self).bytes_received <= old(self).total_length,
            match res {
                PacketResult::Received(len) => (len == 0 && old(self).reader.frame().len() == 0) || (0 < len
                    <= 1024 && old(self).reader.frame().len() == len + PACKET_OVERHEAD),
                _ => true,
            },
        ensures
            final(uart).wf(),
            final(dest)@.len() == old(dest)@.len(),
            applied(
                react(
                    old(self).phase,
                    old(self).total_length,
                    old(self).expected_packet,
                    old(self).bytes_received,
                    res,
                    old(self).reader.frame(),
                    old(dest)@.len(),
                ),
                old(self).reader.frame(),
                *old(self),
                *final(self),
                *old(uart),
                *final(uart),
                old(dest)@,
                final(dest)@,
                r,
            ),
    {
        let ghost q0 = uart.outgoing();
        let ghost d0 = dest@;
        let ghost g = self.reader.frame();
        match res {
            PacketResult::Received(len) => {
                match self.phase {
                    Phase::Handshake => {
                        let frame_len_now = self.reader.buffer.len();
                        if frame_len_now == 0 || self.reader.buffer[SEQNO] != 0 {
                            let reply: [u8; 2] = [NAK, CRC];
                            uart.write_all(reply.as_slice());
                            assert(reply@ =~= seq![NAK, CRC]);
                            uart.discard_input();
                            self.reader = PacketReader::new(HANDSHAKE_CAN_TOLERANCE);
                            return Progress::Continue { flush: false };
                        }
                        let payload = vstd::slice::slice_subrange(
                            self.reader.buffer.as_slice(),
                            HEADER_SIZE,
                            frame_len_now - TRAILER_SIZE,
                        );
                        match parse_header(payload) {
                            None => {
                                abort_file(uart);
                                Progress::Finished(Err(TransferError::Framing))
                            },
                            Some(t) => {
                                if t as usize > dest.len() {
                                    abort_file(uart);
                                    return Progress::Finished(Err(TransferError::TooLarge));
                                }
                                let reply: [u8; 2] = [ACK, CRC];
                                uart.write_all(reply.as_slice());
                                assert(reply@ =~= seq![ACK, CRC]);
                                self.phase = Phase::Data;
                                self.total_length = t;
                                self.expected_packet = 1;
                                self.bytes_received = 0;
                                self.reader = PacketReader::new(0);
                                Progress::Continue { flush: false }
                            },
                        }
                    },
                    Phase::Data => {
                        if len == 0 {
                            let reply: [u8; 2] = [ACK, CRC];
                            uart.write_all(reply.as_slice());
                            assert(reply@ =~= seq![ACK, CRC]);
                            if self.bytes_received < self.total_length {
                                abort_file(uart);
                                proof {
                                    lemma_enqueue_all_concat(q0, seq![ACK, CRC], abort_sequence());
                                }
                                return Progress::Finished(Err(TransferError::ShortTransfer));
                            }
                            self.phase = Phase::Trailer;
                            self.reader = PacketReader::new(0);
                            return Progress::Continue { flush: true };
                        }
                        if self.reader.buffer[SEQNO] != self.expected_packet {
                            let reply: [u8; 1] = [NAK];
                            uart.write_all(reply.as_slice());
                            assert(reply@ =~= seq![NAK]);
                            uart.discard_input();
                            self.reader = PacketReader::new(0);
                            return Progress::Continue { flush: true };
                        }
                        if self.bytes_received >= self.total_length {
                            abort_file(uart);
                            return Progress::Finished(Err(TransferError::ProtocolViolation));
                        }
                        let room: u32 = self.total_length - self.bytes_received;
                        let n: u32 = if len <= room {
                            len
                        } else {
                            room
                        };
                        let at: usize = self.bytes_received as usize;
                        if at + n as usize > dest.len() {
                            abort_file(uart);
                            return Progress::Finished(Err(TransferError::TooLarge));
                        }
                        self.expected_packet = self.expected_packet.wrapping_add(1);
                        let reply: [u8; 1] = [ACK];
                        uart.write_all(reply.as_slice());
                        assert(reply@ =~= seq![ACK]);
                        let mut k: usize = 0;
                        while k < n as usize
                            invariant
                                k <= n,
                                n <= len,
                                len <= 1024,
                                at + n <= dest@.len(),
                                at + n <= usize::MAX,
                                g == self.reader.buffer@,
                                g.len() == len + PACKET_OVERHEAD,
                                dest@.len() == d0.len(),
                                dest@ == splice(d0, at as int, g.subrange(HEADER_SIZE as int, HEADER_SIZE + k)),
                            decreases n - k,
                        {
                            let b = self.reader.buffer[HEADER_SIZE + k];
                            dest.set(at + k, b);
                            assert(dest@ =~= splice(d0, at as int, g.subrange(HEADER_SIZE as int, HEADER_SIZE + k + 1)));
                            k = k + 1;
                        }
                        self.bytes_received = self.bytes_received + n;
                        self.reader = PacketReader::new(0);
                        Progress::Continue { flush: false }
                    },
                    Phase::Trailer => {
                        if len == 0 {
                            let reply: [u8; 1] = [ACK];
                            uart.write_all(reply.as_slice());
                            assert(reply@ =~= seq![ACK]);
                            Progress::Finished(Ok(self.total_length))
                        } else {
                            abort_file(uart);
                            Progress::Finished(Err(TransferError::ProtocolViolation))
                        }
                    },
                }
            },
            PacketResult::Timeout => {
                if self.phase == Phase::Handshake {
                    uart.discard_input();
                    let reply: [u8; 1] = [CRC];
                    uart.write_all(reply.as_slice());
                    assert(reply@ =~= seq![CRC]);
                    self.reader = PacketReader::new(HANDSHAKE_CAN_TOLERANCE);
                    Progress::Continue { flush: false }
                } else {
                    abort_file(uart);
                    Progress::Finished(Err(TransferError::Timeout))
                }
            },
            PacketResult::Error => {
                abort_file(uart);
                Progress::Finished(Err(TransferError::Framing))
            },
            PacketResult::Abort => {
                if self.phase == Phase::Handshake {
                    let reply: [u8; 1] = [ACK];
                    uart.write_all(reply.as_slice());
                    assert(reply@ =~= seq![ACK]);
                } else {
                    assert(enqueue_all(q0, Seq::<u8>::empty()) == q0);
                }
                Progress::Finished(Err(TransferError::Abort))
            },
        }
    }
}

/// Feeds a session the result of one bounded byte read (`None` when the
/// wait ran out) and carries out the protocol's reaction: replies are
/// queued on `uart`, payload goes to `dest`. While the packet is incomplete
/// nothing else happens; once it is complete the session reacts as `react`
/// says.
pub fn receive_file(session: &mut Session, uart: &mut Uart, dest: &mut Vec<u8>, event: Option<u8>) -> (r: Progress)
    requires
        old(session).wf(),
        old(uart).wf(),
    ensures
        final(uart).wf(),
        final(dest)@.len() == old(dest)@.len(),
        ({
            let f = old(session).reader().frame();
            let g = frame_after(f, event);
            match reader_outcome(f, old(session).reader().cans_left(), event) {
                None => {
                    &&& r == (Progress::Continue { flush: false })
                    &&& final(session).wf()
                    &&& final(session).phase() == old(session).phase()
                    &&& final(session).total() == old(session).total()
                    &&& final(session).expected() == old(session).expected()
                    &&& final(session).received() == old(session).received()
                    &&& final(session).reader().frame() == g
                    &&& final(session).reader().cans_left() == cans_after(
                        f,
                        old(session).reader().cans_left(),
                        event,
                    )
                    &&& *final(uart) == *old(uart)
                    &&& final(dest)@ == old(dest)@
                },
                Some(res) => applied(
                    react(
                        old(session).phase(),
                        old(session).total(),
                        old(session).expected(),
                        old(session).received(),
                        res,
                        g,
                        old(dest)@.len(),
                    ),
                    g,
                    *old(session),
                    *final(session),
                    *old(uart),
                    *final(uart),
                    old(dest)@,
                    final(dest)@,
                    r,
                ),
            }
        }),
{
    match session.reader.receive_packet(event) {
        None => Progress::Continue { flush: false },
        Some(res) => session.on_packet(uart, dest, res),
    }
}

} // verus!
