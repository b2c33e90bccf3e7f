//! Big-endian encoding of the fixed-width integers that appear in headers and
//! metadata records.

use vstd::prelude::*;

verus! {

/// The two bytes of `x`, most significant first.
pub open spec fn u16_be(x: u16) -> Seq<u8> {
    seq![(x / 0x100) as u8, (x % 0x100) as u8]
}

/// The number that the first two bytes of `b` spell, most significant first.
pub open spec fn u16_of_be(b: Seq<u8>) -> u16 {
    (b[0] * 0x100 + b[1]) as u16
}

/// The four bytes of `x`, most significant first.
pub open spec fn u32_be(x: u32) -> Seq<u8> {
    seq![
        (x / 0x100_0000) as u8,
        (x / 0x1_0000 % 0x100) as u8,
        (x / 0x100 % 0x100) as u8,
        (x % 0x100) as u8,
    ]
}

/// The number that the first four bytes of `b` spell, most significant first.
pub open spec fn u32_of_be(b: Seq<u8>) -> u32 {
    (b[0] * 0x100_0000 + b[1] * 0x1_0000 + b[2] * 0x100 + b[3]) as u32
}

/// The eight bytes of `x`, most significant first.
pub open spec fn u64_be(x: u64) -> Seq<u8> {
    u32_be((x / 0x1_0000_0000) as u32) + u32_be((x % 0x1_0000_0000) as u32)
}

/// The number that the first eight bytes of `b` spell, most significant first.
pub open spec fn u64_of_be(b: Seq<u8>) -> u64 {
    (u32_of_be(b.subrange(0, 4)) * 0x1_0000_0000 + u32_of_be(b.subrange(4, 8))) as u64
}

/// Two's-complement reading of 64 bits.
pub open spec fn i64_of_bits(x: u64) -> i64 {
    if x < 0x8000_0000_0000_0000 {
        x as i64
    } else {
        (x - 0x1_0000_0000_0000_0000) as i64
    }
}

/// The 64 bits of a signed number in two's complement.
pub open spec fn bits_of_i64(x: i64) -> u64 {
    if x >= 0 {
        x as u64
    } else {
        (x + 0x1_0000_0000_0000_0000) as u64
    }
}

/// The eight bytes of `x` in two's complement, most significant first.
pub open spec fn i64_be(x: i64) -> Seq<u8> {
    u64_be(bits_of_i64(x))
}

/// The signed number that the first eight bytes of `b` spell in two's complement.
pub open spec fn i64_of_be(b: Seq<u8>) -> i64 {
    i64_of_bits(u64_of_be(b))
}

/// Two bytes written from a number read back as that number.
pub proof fn lemma_u16_be_round_trip(x: u16)
    ensures
        u16_be(x).len() == 2,
        u16_of_be(u16_be(x)) == x,
{
}

/// Two bytes are what their number is written as.
pub proof fn lemma_u16_be_inverse(b: Seq<u8>)
    requires
        b.len() == 2,
    ensures
        u16_be(u16_of_be(b)) == b,
{
    assert(u16_be(u16_of_be(b)) =~= b);
}

/// Four bytes written from a number read back as that number.
pub proof fn lemma_u32_be_round_trip(x: u32)
    ensures
        u32_be(x).len() == 4,
        u32_of_be(u32_be(x)) == x,
{
}

/// Four bytes are what their number is written as.
pub proof fn lemma_u32_be_inverse(b: Seq<u8>)
    requires
        b.len() == 4,
    ensures
        u32_be(u32_of_be(b)) == b,
{
    let b0 = b[0] as int;
    let b1 = b[1] as int;
    let b2 = b[2] as int;
    let b3 = b[3] as int;
    let x = b0 * 0x100_0000 + b1 * 0x1_0000 + b2 * 0x100 + b3;
    assert(x / 0x100_0000 == b0);
    assert(x / 0x1_0000 == b0 * 0x100 + b1);
    assert(x / 0x100 == b0 * 0x1_0000 + b1 * 0x100 + b2);
    assert((b0 * 0x100 + b1) % 0x100 == b1);
    assert((b0 * 0x1_0000 + b1 * 0x100 + b2) % 0x100 == b2);
    assert(x % 0x100 == b3);
    assert(u32_of_be(b) == x);
    assert(u32_be(u32_of_be(b)) =~= b);
}

/// Eight bytes written from a number read back as that number.
pub proof fn lemma_u64_be_round_trip(x: u64)
    ensures
        u64_be(x).len() == 8,
        u64_of_be(u64_be(x)) == x,
{
    let hi = (x / 0x1_0000_0000) as u32;
    let lo = (x % 0x1_0000_0000) as u32;
    lemma_u32_be_round_trip(hi);
    lemma_u32_be_round_trip(lo);
    assert(u64_be(x).subrange(0, 4) =~= u32_be(hi));
    assert(u64_be(x).subrange(4, 8) =~= u32_be(lo));
}

/// Eight bytes are what their number is written as.
pub proof fn lemma_u64_be_inverse(b: Seq<u8>)
    requires
        b.len() == 8,
    ensures
        u64_be(u64_of_be(b)) == b,
{
    let hi = u32_of_be(b.subrange(0, 4));
    let lo = u32_of_be(b.subrange(4, 8));
    lemma_u32_be_inverse(b.subrange(0, 4));
    lemma_u32_be_inverse(b.subrange(4, 8));
    let x = u64_of_be(b);
    assert(x / 0x1_0000_0000 == hi);
    assert(x % 0x1_0000_0000 == lo);
    assert(u64_be(x) =~= b);
}

/// The bits of a signed number read back as that number.
pub proof fn lemma_i64_bits_round_trip(x: i64)
    ensures
        i64_of_bits(bits_of_i64(x)) == x,
{
}

/// An unsigned number is the bits of the signed number it reads as.
pub proof fn lemma_i64_bits_inverse(x: u64)
    ensures
        bits_of_i64(i64_of_bits(x)) == x,
{
}

/// Writes `x` as two bytes, most significant first.
pub fn u16_to_be(x: u16) -> (r: [u8; 2])
    ensures
        r@ == u16_be(x),
{
    let r: [u8; 2] = [(x / 0x100) as u8, (x % 0x100) as u8];
    assert(r@ =~= u16_be(x));
    r
}

/// Reads two bytes as a number, most significant first.
pub fn u16_from_be(b0: u8, b1: u8) -> (r: u16)
    ensures
        r == u16_of_be(seq![b0, b1]),
{
    b0 as u16 * 0x100 + b1 as u16
}

/// Writes `x` as four bytes, most significant first.
pub fn u32_to_be(x: u32) -> (r: [u8; 4])
    ensures
        r@ == u32_be(x),
{
    let r: [u8; 4] = [
        (x / 0x100_0000) as u8,
        (x / 0x1_0000 % 0x100) as u8,
        (x / 0x100 % 0x100) as u8,
        (x % 0x100) as u8,
    ];
    assert(r@ =~= u32_be(x));
    r
}

/// Reads the four bytes of `b` from `at` on as a number, most significant first.
pub fn u32_from_be(b: &[u8], at: usize) -> (r: u32)
    requires
        at + 4 <= b.len(),
    ensures
        r == u32_of_be(b@.subrange(at as int, at + 4)),
{
    b[at] as u32 * 0x100_0000 + b[at + 1] as u32 * 0x1_0000 + b[at + 2] as u32 * 0x100 + b[at
        + 3] as u32
}

/// Writes `x` as eight bytes, most significant first.
pub fn u64_to_be(x: u64) -> (r: [u8; 8])
    ensures
        r@ == u64_be(x),
{
    let hi: [u8; 4] = u32_to_be((x / 0x1_0000_0000) as u32);
    let lo: [u8; 4] = u32_to_be((x % 0x1_0000_0000) as u32);
    let r: [u8; 8] = [hi[0], hi[1], hi[2], hi[3], lo[0], lo[1], lo[2], lo[3]];
    assert(r@ =~= u64_be(x));
    r
}

/// Reads the eight bytes of `b` from `at` on as a number, most significant first.
pub fn u64_from_be(b: &[u8], at: usize) -> (r: u64)
    requires
        at + 8 <= b.len(),
    ensures
        r == u64_of_be(b@.subrange(at as int, at + 8)),
{
    let hi: u32 = u32_from_be(b, at);
    let lo: u32 = u32_from_be(b, at + 4);
    proof {
        let s = b@.subrange(at as int, at + 8);
        assert(s.subrange(0, 4) =~= b@.subrange(at as int, at + 4));
        assert(s.subrange(4, 8) =~= b@.subrange(at + 4, at + 8));
    }
    hi as u64 * 0x1_0000_0000 + lo as u64
}

/// The two's complement bits of `x` as an unsigned number.
pub fn i64_to_bits(x: i64) -> (r: u64)
    ensures
        r == bits_of_i64(x),
{
    if x >= 0 {
        x as u64
    } else {
        let m: u64 = (-(x + 1)) as u64;
        u64::MAX - m
    }
}

/// The signed number whose two's complement bits are `x`.
pub fn i64_from_bits(x: u64) -> (r: i64)
    ensures
        r == i64_of_bits(x),
{
    if x < 0x8000_0000_0000_0000 {
        x as i64
    } else {
        let m: u64 = u64::MAX - x;
        -(m as i64) - 1
    }
}

} // verus!
