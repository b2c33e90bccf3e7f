//! CRC-CCITT: the 16-bit cyclic redundancy check with polynomial 0x1021,
//! processed most significant bit first.

use vstd::prelude::*;

verus! {

/// The generator polynomial, without its leading term.
pub const CRC_CCITT_POLY: u16 = 0x1021;

/// The register before any byte has been consumed.
pub const CRC_CCITT_INIT: u16 = 0xFFFF;

/// One step of the shift register: shift left, and subtract the polynomial if
/// a set bit fell out.
pub open spec fn crc_shift(crc: u16) -> u16 {
    if crc & 0x8000 != 0 {
        (crc << 1) ^ 0x1021
    } else {
        crc << 1
    }
}

/// The register after `n` steps.
pub open spec fn crc_shift_n(crc: u16, n: nat) -> u16
    decreases n,
{
    if n == 0 {
        crc
    } else {
        crc_shift(crc_shift_n(crc, (n - 1) as nat))
    }
}

/// The register after one more byte: the byte enters at the top, then eight steps.
pub open spec fn crc_byte(crc: u16, b: u8) -> u16 {
    crc_shift_n(crc ^ ((b as u16) << 8), 8)
}

/// The register after consuming `data`, starting from `start`.
pub open spec fn crc_ccitt(start: u16, data: Seq<u8>) -> u16
    decreases data.len(),
{
    if data.len() == 0 {
        start
    } else {
        crc_byte(crc_ccitt(start, data.drop_last()), data.last())
    }
}

/// Consuming two runs of bytes one after the other is consuming their concatenation.
pub proof fn lemma_crc_concat(start: u16, a: Seq<u8>, b: Seq<u8>)
    ensures
        crc_ccitt(start, a + b) == crc_ccitt(crc_ccitt(start, a), b),
    decreases b.len(),
{
    if b.len() == 0 {
        assert(a + b =~= a);
    } else {
        lemma_crc_concat(start, a, b.drop_last());
        assert((a + b).drop_last() =~= a + b.drop_last());
        assert((a + b).last() == b.last());
    }
}

fn crc_update(crc: u16, b: u8) -> (r: u16)
    ensures
        r == crc_byte(crc, b),
{
    let mut reg: u16 = crc ^ ((b as u16) << 8);
    let mut i: u8 = 0;
    while i < 8
        invariant
            i <= 8,
            reg == crc_shift_n(crc ^ ((b as u16) << 8), i as nat),
        decreases 8 - i,
    {
        reg = if reg & 0x8000 != 0 {
            (reg << 1) ^ CRC_CCITT_POLY
        } else {
            reg << 1
        };
        i += 1;
    }
    reg
}

/// Runs the register over `data`, starting from `start`.
pub fn crc_ccitt_generic(start: u16, data: &[u8]) -> (r: u16)
    ensures
        r == crc_ccitt(start, data@),
{
    let n: usize = data.len();
    let mut crc: u16 = start;
    let mut i: usize = 0;
    while i < n
        invariant
            i <= n,
            n == data@.len(),
            crc == crc_ccitt(start, data@.subrange(0, i as int)),
        decreases n - i,
    {
        proof {
            let next = data@.subrange(0, i + 1);
            assert(next.drop_last() =~= data@.subrange(0, i as int));
            assert(next.last() == data@[i as int]);
        }
        crc = crc_update(crc, data[i]);
        i += 1;
    }
    assert(data@.subrange(0, n as int) =~= data@);
    crc
}

/// Runs the register over `data[from..to]`, starting from `start`.
pub fn crc_ccitt_range(start: u16, data: &[u8], from: usize, to: usize) -> (r: u16)
    requires
        from <= to <= data@.len(),
    ensures
        r == crc_ccitt(start, data@.subrange(from as int, to as int)),
{
    let mut crc: u16 = start;
    let mut i: usize = from;
    while i < to
        invariant
            from <= i <= to <= data@.len(),
            crc == crc_ccitt(start, data@.subrange(from as int, i as int)),
        decreases to - i,
    {
        proof {
            let next = data@.subrange(from as int, i + 1);
            assert(next.drop_last() =~= data@.subrange(from as int, i as int));
            assert(next.last() == data@[i as int]);
        }
        crc = crc_update(crc, data[i]);
        i += 1;
    }
    crc
}

} // verus!
