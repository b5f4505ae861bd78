// Receiving side of a YMODEM transfer over a polled serial port, for a boot
// program that has no OS, heap or interrupts to lean on.
//
//   crc     CRC-16/XMODEM and the rule that a frame with its checksum appended
//           sums to zero
//   ring    fixed-capacity byte FIFO that drops bytes when full
//   uart    duplex transport built from two rings, fed and drained one
//           device step at a time
//   timer   bounded waits on a wrapping tick counter
//   header  the file length declared in the handshake packet
//   ymodem  packet assembly and the receive session, as a state machine
//           driven one byte (or timeout) at a time

pub mod crc;
pub mod header;
pub mod ring;
pub mod timer;
pub mod uart;
pub mod ymodem;
