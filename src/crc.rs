use vstd::prelude::*;

verus! {

/// The CRC-16/XMODEM generator polynomial.
pub const POLYNOMIAL: u16 = 0x1021;

/// One shift round of the register: shift left by one and, when the bit that
/// left the top was set, fold in the polynomial.
pub open spec fn crc_round(c: u16) -> u16 {
    if c & 0x8000u16 != 0 {
        ((c << 1u16) ^ 0x1021u16) as u16
    } else {
        (c << 1u16) as u16
    }
}

/// `n` shift rounds applied to `c`.
pub open spec fn crc_rounds(c: u16, n: nat) -> u16
    decreases n,
{
    if n == 0 {
        c
    } else {
        crc_round(crc_rounds(c, (n - 1) as nat))
    }
}

/// The register after taking in one byte: the byte goes into the high half,
/// then eight rounds follow.
pub open spec fn crc_update(c: u16, b: u8) -> u16 {
    crc_rounds(c ^ ((b as u16) << 8u16), 8)
}

/// CRC-16/XMODEM of a byte sequence: register starts at zero, no reflection,
/// no final XOR.
pub open spec fn crc_of(s: Seq<u8>) -> u16
    decreases s.len(),
{
    if s.len() == 0 {
        0
    } else {
        crc_update(crc_of(s.drop_last()), s.last())
    }
}

/// The two bytes of a 16-bit value, most significant first.
pub open spec fn big_endian16(v: u16) -> Seq<u8> {
    seq![#[verifier::truncate] ((v >> 8u16) as u8), #[verifier::truncate] ((v & 0xffu16) as u8)]
}

/// Computes the CRC-16/XMODEM checksum of `data`.
pub fn crc16(data: &[u8]) -> (r: u16)
    ensures
        r == crc_of(data@),
{
    let mut crc: u16 = 0;
    let mut i: usize = 0;
    while i < data.len()
        invariant
            i <= data@.len(),
            crc == crc_of(data@.subrange(0, i as int)),
        decreases data@.len() - i,
    {
        let b = data[i];
        proof {
            assert(data@.subrange(0, i + 1).drop_last() =~= data@.subrange(0, i as int));
        }
        let start: u16 = crc ^ ((b as u16) << 8u16);
        crc = start;
        let mut k: usize = 0;
        while k < 8
            invariant
                k <= 8,
                crc == crc_rounds(start, k as nat),
            decreases 8 - k,
        {
            if (crc & 0x8000u16) != 0 {
                crc = (crc << 1u16) ^ POLYNOMIAL;
            } else {
                crc = crc << 1u16;
            }
            k = k + 1;
        }
        i = i + 1;
    }
    proof {
        assert(data@.subrange(0, data@.len() as int) =~= data@);
    }
    crc
}

/// Eight rounds on a register whose high byte is clear just move the low byte
/// up: no polynomial is folded in.
proof fn lemma_rounds_low_byte(c: u16)
    requires
        c < 256,
    ensures
        crc_rounds(c, 8) == c << 8u16,
{
    reveal_with_fuel(crc_rounds, 9);
    let c1 = (c << 1u16) as u16;
    let c2 = (c1 << 1u16) as u16;
    let c3 = (c2 << 1u16) as u16;
    let c4 = (c3 << 1u16) as u16;
    let c5 = (c4 << 1u16) as u16;
    let c6 = (c5 << 1u16) as u16;
    let c7 = (c6 << 1u16) as u16;
    assert(c & 0x8000u16 == 0 && c1 & 0x8000u16 == 0 && c2 & 0x8000u16 == 0
        && c3 & 0x8000u16 == 0 && c4 & 0x8000u16 == 0 && c5 & 0x8000u16 == 0
        && c6 & 0x8000u16 == 0 && c7 & 0x8000u16 == 0 && (c7 << 1u16) as u16 == c << 8u16)
        by (bit_vector)
        requires
            c < 256,
            c1 == (c << 1u16) as u16,
            c2 == (c1 << 1u16) as u16,
            c3 == (c2 << 1u16) as u16,
            c4 == (c3 << 1u16) as u16,
            c5 == (c4 << 1u16) as u16,
            c6 == (c5 << 1u16) as u16,
            c7 == (c6 << 1u16) as u16,
    ;
}

/// Appending the checksum of a message to it, most significant byte first,
/// gives a sequence whose checksum is zero: the rule by which a received
/// frame is accepted.
pub proof fn lemma_crc_append_is_zero(d: Seq<u8>)
    ensures
        crc_of(d + big_endian16(crc_of(d))) == 0,
{
    let c = crc_of(d);
    let hi = #[verifier::truncate] ((c >> 8u16) as u8);
    let lo = #[verifier::truncate] ((c & 0xffu16) as u8);
    let s1 = d.push(hi);
    let s2 = s1.push(lo);
    assert(d + big_endian16(c) =~= s2);
    assert(s2.drop_last() =~= s1);
    assert(s1.drop_last() =~= d);
    assert(c ^ ((hi as u16) << 8u16) == lo as u16) by (bit_vector)
        requires
            hi == (c >> 8u16) as u8,
            lo == (c & 0xffu16) as u8,
    ;
    lemma_rounds_low_byte(lo as u16);
    let m = crc_of(s1);
    assert(m == (lo as u16) << 8u16);
    assert(m ^ ((lo as u16) << 8u16) == 0) by (bit_vector)
        requires
            m == (lo as u16) << 8u16,
    ;
    lemma_rounds_low_byte(0);
    assert((0u16 << 8u16) == 0) by (bit_vector);
}

} // verus!
