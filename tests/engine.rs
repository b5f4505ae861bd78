use ymodem_boot::crc::crc16;
use ymodem_boot::header::parse_header;
use ymodem_boot::uart::Uart;
use ymodem_boot::ymodem::{
    abort_file, getchar, receive_file, PacketReader, PacketResult, Poll, Progress, Session,
    TransferError,
};

const SOH: u8 = 0x01;
const STX: u8 = 0x02;
const EOT: u8 = 0x04;
const ACK: u8 = 0x06;
const BSP: u8 = 0x08;
const NAK: u8 = 0x15;
const CAN: u8 = 0x18;
const C: u8 = b'C';

fn frame(marker: u8, seq: u8, data: &[u8], pad: u8) -> Vec<u8> {
    let size = if marker == SOH { 128 } else { 1024 };
    let mut payload = data.to_vec();
    payload.resize(size, pad);
    let c = crc16(&payload);
    let mut f = vec![marker, seq, !seq];
    f.extend_from_slice(&payload);
    f.push((c >> 8) as u8);
    f.push((c & 0xff) as u8);
    f
}

fn header(name: &str, size: u32) -> Vec<u8> {
    let mut h = name.as_bytes().to_vec();
    h.push(0);
    h.extend_from_slice(format!("{} ", size).as_bytes());
    frame(SOH, 0, &h, 0)
}

fn abort_sequence() -> Vec<u8> {
    vec![CAN, CAN, CAN, CAN, BSP, BSP, BSP, BSP]
}

/// Runs a session over the given reads; returns the outcome, if any, and
/// everything sent.
fn run(reads: &[Option<u8>], dest: &mut Vec<u8>) -> (Option<Result<u32, TransferError>>, Vec<u8>) {
    let mut uart = Uart::new();
    let mut out = Vec::new();
    let mut session = Session::new(&mut uart);
    for ev in reads {
        match receive_file(&mut session, &mut uart, dest, *ev) {
            Progress::Continue { flush } => {
                if flush {
                    out.extend(uart.flush_output());
                }
            }
            Progress::Finished(r) => {
                out.extend(uart.flush_output());
                return (Some(r), out);
            }
        }
    }
    out.extend(uart.flush_output());
    (None, out)
}

fn bytes(parts: &[Vec<u8>]) -> Vec<Option<u8>> {
    parts.iter().flatten().map(|b| Some(*b)).collect()
}

#[test]
fn header_declares_length() {
    let mut p = b"file.bin\0".to_vec();
    p.extend_from_slice(b"12345 ");
    assert_eq!(parse_header(&p), Some(12345));
    p.resize(128, 0);
    assert_eq!(parse_header(&p), Some(12345));
}

#[test]
fn malformed_headers_are_refused() {
    assert_eq!(parse_header(b"file.bin"), None);
    assert_eq!(parse_header(b"file.bin\x0012345"), None);
    assert_eq!(parse_header(b"file.bin\x0012a45 "), None);
    assert_eq!(parse_header(b"f\x004294967296 "), None);
    assert_eq!(parse_header(b"f\x004294967295 "), Some(4294967295));
    assert_eq!(parse_header(b"f\x00 "), Some(0));
}

#[test]
fn end_to_end_transfer() {
    let data = [10u8, 20, 30, 40, 50];
    let reads = bytes(&[header("a.bin", 5), frame(SOH, 1, &data, 0x1a), vec![EOT], vec![EOT]]);
    let mut dest = vec![0u8; 5];
    let (r, out) = run(&reads, &mut dest);
    assert_eq!(r, Some(Ok(5)));
    assert_eq!(dest, data.to_vec());
    assert_eq!(out, vec![C, ACK, C, ACK, ACK, C, ACK]);
}

#[test]
fn large_packets_fill_destination() {
    let data: Vec<u8> = (0..1500u32).map(|i| (i % 256) as u8).collect();
    let reads = bytes(&[
        header("big", 1500),
        frame(STX, 1, &data[..1024], 0),
        frame(SOH, 2, &data[1024..1152], 0),
        frame(STX, 3, &data[1152..], 0x1a),
        vec![EOT],
        vec![EOT],
    ]);
    let mut dest = vec![0u8; 2000];
    let (r, _) = run(&reads, &mut dest);
    assert_eq!(r, Some(Ok(1500)));
    assert_eq!(&dest[..1500], &data[..]);
    assert!(dest[1500..].iter().all(|b| *b == 0));
}

#[test]
fn peer_cancel_in_handshake() {
    let mut dest = vec![0u8; 16];
    let (r, out) = run(&[Some(CAN), Some(CAN), Some(CAN)], &mut dest);
    assert_eq!(r, None);
    assert_eq!(out, vec![C]);
    let (r, out) = run(&[Some(CAN), Some(CAN), Some(CAN), Some(CAN)], &mut dest);
    assert_eq!(r, Some(Err(TransferError::Abort)));
    assert_eq!(out, vec![C, ACK]);
}

#[test]
fn short_transfer_fails_with_abort_sequence() {
    let mut dest = vec![0u8; 100];
    let reads = bytes(&[header("s", 100), vec![EOT]]);
    let (r, out) = run(&reads, &mut dest);
    assert_eq!(r, Some(Err(TransferError::ShortTransfer)));
    let mut expected = vec![C, ACK, C, ACK, C];
    expected.extend(abort_sequence());
    assert_eq!(out, expected);
}

#[test]
fn short_transfer_after_one_packet() {
    let mut dest = vec![0u8; 200];
    let reads = bytes(&[header("s", 200), frame(SOH, 1, &[7; 128], 0), vec![EOT]]);
    let (r, out) = run(&reads, &mut dest);
    assert_eq!(r, Some(Err(TransferError::ShortTransfer)));
    assert!(out.ends_with(&abort_sequence()));
    assert!(dest[..128].iter().all(|b| *b == 7));
}

#[test]
fn duplicate_packet_is_nacked_and_not_applied() {
    let first = [1u8; 128];
    let second = [2u8; 128];
    let reads = bytes(&[
        header("d", 256),
        frame(SOH, 1, &first, 0),
        frame(SOH, 1, &[9u8; 128], 0),
        frame(SOH, 2, &second, 0),
        vec![EOT],
        vec![EOT],
    ]);
    let mut dest = vec![0u8; 256];
    let (r, out) = run(&reads, &mut dest);
    assert_eq!(r, Some(Ok(256)));
    assert_eq!(&dest[..128], &first[..]);
    assert_eq!(&dest[128..], &second[..]);
    assert_eq!(out, vec![C, ACK, C, ACK, NAK, ACK, ACK, C, ACK]);
}

#[test]
fn sequence_wraps_after_255() {
    let mut parts = vec![header("w", 300 * 128)];
    for i in 1..=300u32 {
        parts.push(frame(SOH, (i % 256) as u8, &[(i % 256) as u8; 128], 0));
    }
    parts.push(vec![EOT]);
    parts.push(vec![EOT]);
    let mut dest = vec![0u8; 300 * 128];
    let (r, _) = run(&bytes(&parts), &mut dest);
    assert_eq!(r, Some(Ok(300 * 128)));
    assert_eq!(dest[299 * 128], (300 % 256) as u8);
}

#[test]
fn handshake_timeout_retries() {
    let mut dest = vec![0u8; 8];
    let (r, out) = run(&[None, None], &mut dest);
    assert_eq!(r, None);
    assert_eq!(out, vec![C, C, C]);
}

#[test]
fn handshake_with_wrong_sequence_is_nacked() {
    let mut h = b"x\x004 ".to_vec();
    h.resize(128, 0);
    let reads = bytes(&[frame(SOH, 3, &h, 0)]);
    let mut dest = vec![0u8; 8];
    let (r, out) = run(&reads, &mut dest);
    assert_eq!(r, None);
    assert_eq!(out, vec![C, NAK, C]);
}

#[test]
fn handshake_crc_error_aborts() {
    let mut f = header("x", 4);
    f[10] ^= 1;
    let mut dest = vec![0u8; 8];
    let (r, out) = run(&bytes(&[f]), &mut dest);
    assert_eq!(r, Some(Err(TransferError::Framing)));
    let mut expected = vec![C];
    expected.extend(abort_sequence());
    assert_eq!(out, expected);
}

#[test]
fn malformed_header_aborts() {
    let f = frame(SOH, 0, b"no-terminator", b'a');
    let mut dest = vec![0u8; 8];
    let (r, _) = run(&bytes(&[f]), &mut dest);
    assert_eq!(r, Some(Err(TransferError::Framing)));
}

#[test]
fn declared_length_beyond_destination_is_refused() {
    let mut dest = vec![0u8; 8];
    let (r, out) = run(&bytes(&[header("x", 9)]), &mut dest);
    assert_eq!(r, Some(Err(TransferError::TooLarge)));
    let mut expected = vec![C];
    expected.extend(abort_sequence());
    assert_eq!(out, expected);
}

#[test]
fn data_beyond_declared_length_is_a_violation() {
    let reads = bytes(&[header("x", 0), frame(SOH, 1, &[1; 128], 0)]);
    let mut dest = vec![0u8; 8];
    let (r, out) = run(&reads, &mut dest);
    assert_eq!(r, Some(Err(TransferError::ProtocolViolation)));
    assert!(out.ends_with(&abort_sequence()));
}

#[test]
fn data_timeout_aborts() {
    let mut reads = bytes(&[header("x", 4), vec![SOH, 1, 0xfe, 0]]);
    reads.push(None);
    let mut dest = vec![0u8; 8];
    let (r, out) = run(&reads, &mut dest);
    assert_eq!(r, Some(Err(TransferError::Timeout)));
    assert_eq!(out, [vec![C, ACK, C], abort_sequence()].concat());
}

#[test]
fn data_cancel_ends_without_abort_sequence() {
    let reads = bytes(&[header("x", 4), vec![CAN]]);
    let mut dest = vec![0u8; 8];
    let (r, out) = run(&reads, &mut dest);
    assert_eq!(r, Some(Err(TransferError::Abort)));
    assert_eq!(out, vec![C, ACK, C]);
}

#[test]
fn non_empty_trailer_is_a_violation() {
    let reads = bytes(&[header("x", 4), frame(SOH, 1, &[5; 4], 0), vec![EOT], header("y", 1)]);
    let mut dest = vec![0u8; 8];
    let (r, out) = run(&reads, &mut dest);
    assert_eq!(r, Some(Err(TransferError::ProtocolViolation)));
    assert!(out.ends_with(&abort_sequence()));
}

#[test]
fn packet_reader_outcomes() {
    let mut r = PacketReader::new(0);
    assert_eq!(r.receive_packet(Some(EOT)), Some(PacketResult::Received(0)));
    let mut r = PacketReader::new(1);
    assert_eq!(r.receive_packet(Some(CAN)), None);
    assert_eq!(r.receive_packet(Some(CAN)), Some(PacketResult::Abort));
    let mut r = PacketReader::new(0);
    assert_eq!(r.receive_packet(Some(0x33)), Some(PacketResult::Abort));
    let mut r = PacketReader::new(0);
    assert_eq!(r.receive_packet(None), Some(PacketResult::Timeout));

    let good = frame(STX, 7, &[3; 1024], 0);
    let mut r = PacketReader::new(0);
    for b in &good[..good.len() - 1] {
        assert_eq!(r.receive_packet(Some(*b)), None);
    }
    assert_eq!(r.receive_packet(Some(good[good.len() - 1])), Some(PacketResult::Received(1024)));
    assert_eq!(r.frame_bytes(), &good);

    let mut bad = frame(SOH, 7, &[3; 128], 0);
    bad[2] = 7;
    let mut r = PacketReader::new(0);
    let mut last = None;
    for b in &bad {
        last = r.receive_packet(Some(*b));
    }
    assert_eq!(last, Some(PacketResult::Error));

    let mut bad = frame(SOH, 7, &[3; 128], 0);
    bad[132] ^= 0x80;
    let mut r = PacketReader::new(0);
    for b in &bad {
        last = r.receive_packet(Some(*b));
    }
    assert_eq!(last, Some(PacketResult::Error));
}

#[test]
fn getchar_decisions() {
    let mut u = Uart::new();
    assert_eq!(getchar(&mut u, false, 0), Poll::Wait);
    assert_eq!(getchar(&mut u, true, 0), Poll::Timeout);
    assert_eq!(getchar(&mut u, false, 1), Poll::Timeout);
    let p = u.send_receive(false, Some(0x5a));
    assert_eq!(getchar(&mut u, true, p.available), Poll::Timeout);
    assert_eq!(getchar(&mut u, false, p.available), Poll::Byte(0x5a));
}

#[test]
fn abort_file_sends_sequence_and_drops_input() {
    let mut u = Uart::new();
    u.send_receive(false, Some(1));
    abort_file(&mut u);
    assert_eq!(u.read_byte(), None);
    assert_eq!(u.flush_output(), abort_sequence());
}
