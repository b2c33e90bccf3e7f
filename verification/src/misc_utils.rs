//! Byte ranges within a file, and the spelling of bytes as hexadecimal digits.

use vstd::prelude::*;
use crate::sbx_specs::SBX_SCAN_BLOCK_SIZE;

verus! {

/// The end of a range: the last position in it, or the first behind it.
#[derive(Clone, Copy, Debug, PartialEq, Eq, Structural)]
pub enum RangeEnd<T> {
    Inc(T),
    Exc(T),
}

/// The extent of a file, given by its last position or by its length.
#[derive(Clone, Copy, Debug, PartialEq, Eq, Structural)]
pub enum PositionOrLength<T> {
    Pos(T),
    Len(T),
}

/// Where a pipeline starts reading and how many bytes it takes from there.
#[derive(Clone, Copy, Debug, PartialEq, Eq, Structural)]
pub struct RequiredLenAndSeekTo {
    pub required_len: u64,
    pub seek_to: u64,
}

/// The largest multiple of `multiple` that is not above `x`.
pub open spec fn rounded_down(x: int, multiple: int) -> int {
    x - x % multiple
}

/// `x`, but no more than `limit`.
pub open spec fn at_most(limit: int, x: int) -> int {
    if x > limit {
        limit
    } else {
        x
    }
}

/// `x`, but no less than `limit`.
pub open spec fn at_least(limit: int, x: int) -> int {
    if x < limit {
        limit
    } else {
        x
    }
}

/// A position, rounded down to a multiple unless misalignment is asked for.
pub open spec fn aligned(x: int, multiple: int, force_misalign: bool) -> int {
    if force_misalign {
        x
    } else {
        rounded_down(x, multiple)
    }
}

/// The part of a file to work on, and where to go on from.
///
/// The file has the positions `0..=last`. The range starts at `from_pos`,
/// which is kept within the file and aligned, and ends at `to_pos`, which is
/// kept within the file and not before the start; without the one the range
/// starts at 0, without the other it ends with the file. The length is that
/// of the range. The position to go on from is the start of the range moved
/// on by the bytes done so far, aligned again.
pub open spec fn required_len_and_seek_to(
    from_pos: Option<u64>,
    to_pos: Option<RangeEnd<u64>>,
    force_misalign: bool,
    bytes_so_far: u64,
    last_possible_pos: PositionOrLength<u64>,
    multiple_of: Option<u64>,
) -> RequiredLenAndSeekTo {
    let multiple = match multiple_of {
        Some(x) => x as int,
        None => SBX_SCAN_BLOCK_SIZE as int,
    };
    if last_possible_pos == PositionOrLength::Len(0u64) {
        RequiredLenAndSeekTo { required_len: 0, seek_to: 0 }
    } else {
        let last = match last_possible_pos {
            PositionOrLength::Pos(x) => x as int,
            PositionOrLength::Len(x) => x - 1,
        };
        let from = match from_pos {
            None => 0,
            Some(n) => aligned(at_most(last, n as int), multiple, force_misalign),
        };
        let to = match to_pos {
            None => last,
            Some(RangeEnd::Inc(n)) => at_most(last, at_least(from, n as int)),
            Some(RangeEnd::Exc(n)) => at_most(last, at_least(from, n - 1)),
        };
        RequiredLenAndSeekTo {
            required_len: at_most(u64::MAX as int, to - from + 1) as u64,
            seek_to: aligned(
                at_most(u64::MAX as int, from + bytes_so_far),
                multiple,
                force_misalign,
            ) as u64,
        }
    }
}

/// The largest multiple of `multiple` that is not above `x`.
pub fn round_down_to_multiple(x: u64, multiple: u64) -> (r: u64)
    requires
        multiple != 0,
    ensures
        r == rounded_down(x as int, multiple as int),
        r <= x,
        r % multiple == 0,
        x - r < multiple,
{
    proof {
        let xi = x as int;
        let m = multiple as int;
        vstd::arithmetic::div_mod::lemma_fundamental_div_mod(xi, m);
        assert(0 <= xi % m < m) by (nonlinear_arith)
            requires
                m >= 1,
        ;
        assert(m * (xi / m) == (xi / m) * m) by (nonlinear_arith);
        vstd::arithmetic::div_mod::lemma_fundamental_div_mod_converse(xi - xi % m, m, xi / m, 0);
    }
    x - x % multiple
}

/// `x`, or `limit` where `x` is above it.
pub fn ensure_at_most(limit: u64, x: u64) -> (r: u64)
    ensures
        r == at_most(limit as int, x as int),
{
    if x > limit {
        limit
    } else {
        x
    }
}

/// `x`, or `limit` where `x` is below it.
pub fn ensure_at_least(limit: u64, x: u64) -> (r: u64)
    ensures
        r == at_least(limit as int, x as int),
{
    if x < limit {
        limit
    } else {
        x
    }
}

/// Works out where to start and how many bytes to take from a byte range
/// that may be open at either end. The range is kept within the file and,
/// unless `force_misalign` is set, its start is moved down to a whole unit.
pub fn calc_required_len_and_seek_to_from_byte_range(
    from_pos: Option<u64>,
    to_pos: Option<RangeEnd<u64>>,
    force_misalign: bool,
    bytes_so_far: u64,
    last_possible_pos: PositionOrLength<u64>,
    multiple_of: Option<u64>,
) -> (r: RequiredLenAndSeekTo)
    requires
        multiple_of != Some(0u64),
    ensures
        r == required_len_and_seek_to(
            from_pos,
            to_pos,
            force_misalign,
            bytes_so_far,
            last_possible_pos,
            multiple_of,
        ),
{
    let multiple: u64 = match multiple_of {
        Some(x) => x,
        None => SBX_SCAN_BLOCK_SIZE as u64,
    };
    let last: u64 = match last_possible_pos {
        PositionOrLength::Pos(x) => x,
        PositionOrLength::Len(x) => {
            if x == 0 {
                return RequiredLenAndSeekTo { required_len: 0, seek_to: 0 };
            }
            x - 1
        },
    };
    let from: u64 = match from_pos {
        None => 0,
        Some(n) => {
            let n: u64 = ensure_at_most(last, n);
            if force_misalign {
                n
            } else {
                round_down_to_multiple(n, multiple)
            }
        },
    };
    let to: u64 = match to_pos {
        None => last,
        Some(RangeEnd::Inc(n)) => ensure_at_most(last, ensure_at_least(from, n)),
        Some(RangeEnd::Exc(n)) => {
            if n == 0 {
                ensure_at_most(last, from)
            } else {
                ensure_at_most(last, ensure_at_least(from, n - 1))
            }
        },
    };
    let required_len: u64 = if to - from == u64::MAX {
        u64::MAX
    } else {
        to - from + 1
    };
    let moved: u64 = if bytes_so_far > u64::MAX - from {
        u64::MAX
    } else {
        from + bytes_so_far
    };
    let seek_to: u64 = if force_misalign {
        moved
    } else {
        round_down_to_multiple(moved, multiple)
    };
    RequiredLenAndSeekTo { required_len, seek_to }
}

/// The digit, in upper case, for a number below sixteen.
pub open spec fn hex_digit(x: u8) -> char {
    if x < 10 {
        (48 + x) as char
    } else {
        (55 + x) as char
    }
}

/// Two hexadecimal digits in upper case for each byte.
pub open spec fn upper_hex(bytes: Seq<u8>) -> Seq<char>
    decreases bytes.len(),
{
    if bytes.len() == 0 {
        Seq::empty()
    } else {
        upper_hex(bytes.drop_last()) + seq![
            hex_digit(bytes.last() / 16),
            hex_digit(bytes.last() % 16),
        ]
    }
}

fn hex_digit_char(x: u8) -> (r: char)
    requires
        x < 16,
    ensures
        r == hex_digit(x),
{
    if x < 10 {
        (48 + x) as char
    } else {
        (55 + x) as char
    }
}

/// The bytes as hexadecimal digits in upper case: the name under which the
/// blocks of one file UID are kept.
pub fn bytes_to_upper_hex_string(bytes: &[u8]) -> (r: Vec<char>)
    ensures
        r@ == upper_hex(bytes@),
        r@.len() == 2 * bytes@.len(),
{
    let n: usize = bytes.len();
    let mut r: Vec<char> = Vec::new();
    let mut i: usize = 0;
    while i < n
        invariant
            i <= n,
            n == bytes@.len(),
            r@ == upper_hex(bytes@.subrange(0, i as int)),
            r@.len() == 2 * i,
        decreases n - i,
    {
        let b: u8 = bytes[i];
        proof {
            let next = bytes@.subrange(0, i + 1);
            assert(next.drop_last() =~= bytes@.subrange(0, i as int));
            assert(next.last() == b);
        }
        r.push(hex_digit_char(b / 16));
        r.push(hex_digit_char(b % 16));
        assert(r@ =~= upper_hex(bytes@.subrange(0, i + 1)));
        i += 1;
    }
    assert(bytes@.subrange(0, n as int) =~= bytes@);
    r
}

} // verus!
