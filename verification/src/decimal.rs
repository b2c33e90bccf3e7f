//! Numbers written in decimal digits, as the log of a rescue holds them.

use vstd::prelude::*;

verus! {

/// Whether a byte is an ASCII digit.
pub open spec fn is_digit(b: u8) -> bool {
    48 <= b <= 57
}

/// The decimal digits of a number, most significant first, without leading
/// zeros; the digit `0` for zero.
pub open spec fn decimal(x: nat) -> Seq<u8>
    decreases x,
{
    if x < 10 {
        seq![(48 + x) as u8]
    } else {
        decimal(x / 10).push((48 + x % 10) as u8)
    }
}

/// The number that a run of decimal digits spells.
pub open spec fn decimal_value(digits: Seq<u8>) -> nat
    decreases digits.len(),
{
    if digits.len() == 0 {
        0
    } else {
        (decimal_value(digits.drop_last()) * 10 + (digits.last() - 48)) as nat
    }
}

/// Whether every byte is a digit.
pub open spec fn all_digits(digits: Seq<u8>) -> bool {
    forall|i: int| 0 <= i < digits.len() ==> is_digit(#[trigger] digits[i])
}

/// Number of digits at the start of `b`.
pub open spec fn digit_run(b: Seq<u8>) -> nat
    decreases b.len(),
{
    if b.len() == 0 || !is_digit(b[0]) {
        0
    } else {
        1 + digit_run(b.skip(1))
    }
}

/// The digits of a number are digits, at least one and at most twenty for
/// a `u64`, and spell the number.
pub proof fn lemma_decimal(x: nat)
    ensures
        decimal(x).len() >= 1,
        all_digits(decimal(x)),
        decimal_value(decimal(x)) == x,
    decreases x,
{
    if x < 10 {
        let d = decimal(x);
        assert(d.drop_last() =~= Seq::<u8>::empty());
        assert(decimal_value(d.drop_last()) == 0);
    } else {
        lemma_decimal(x / 10);
        let d = decimal(x);
        assert(d.drop_last() =~= decimal(x / 10));
        assert forall|i: int| 0 <= i < d.len() implies is_digit(#[trigger] d[i]) by {
            if i < d.len() - 1 {
                assert(d[i] == decimal(x / 10)[i]);
            }
        }
    }
}

/// The digits of a number, followed by a byte that is no digit, are a run of
/// digits of their own length.
pub proof fn lemma_digit_run(digits: Seq<u8>, tail: Seq<u8>)
    requires
        all_digits(digits),
        tail.len() == 0 || !is_digit(tail[0]),
    ensures
        digit_run(digits + tail) == digits.len(),
    decreases digits.len(),
{
    let b = digits + tail;
    if digits.len() == 0 {
        assert(b =~= tail);
    } else {
        assert(b[0] == digits[0]);
        assert(b.skip(1) =~= digits.skip(1) + tail);
        assert forall|i: int| 0 <= i < digits.skip(1).len() implies is_digit(
            #[trigger] digits.skip(1)[i],
        ) by {
            assert(digits.skip(1)[i] == digits[i + 1]);
        }
        lemma_digit_run(digits.skip(1), tail);
    }
}

/// A run of digits lies within the bytes, and what it holds are digits.
pub proof fn lemma_digit_run_bounds(b: Seq<u8>)
    ensures
        digit_run(b) <= b.len(),
        all_digits(b.subrange(0, digit_run(b) as int)),
        digit_run(b) < b.len() ==> !is_digit(b[digit_run(b) as int]),
    decreases b.len(),
{
    if b.len() == 0 || !is_digit(b[0]) {
    } else {
        lemma_digit_run_bounds(b.skip(1));
        let n = digit_run(b);
        let run = b.subrange(0, n as int);
        assert forall|i: int| 0 <= i < run.len() implies is_digit(#[trigger] run[i]) by {
            if i > 0 {
                assert(run[i] == b.skip(1).subrange(0, n - 1)[i - 1]);
            }
        }
        if n < b.len() {
            assert(b[n as int] == b.skip(1)[n - 1]);
        }
    }
}

/// Appends the decimal digits of `x`.
pub fn append_decimal(out: &mut Vec<u8>, x: u64)
    ensures
        final(out)@ == old(out)@ + decimal(x as nat),
    decreases x,
{
    if x >= 10 {
        append_decimal(out, x / 10);
    }
    out.push(48 + (x % 10) as u8);
    assert(out@ =~= old(out)@ + decimal(x as nat));
}

/// Reads the run of digits at `bytes[at..]` as a number; `None` where there
/// is no digit or the number is too large.
pub fn read_decimal(bytes: &[u8], at: usize) -> (r: Option<(u64, usize)>)
    requires
        at <= bytes@.len(),
    ensures
        match r {
            Some((value, len)) => len == digit_run(bytes@.skip(at as int)) && len >= 1 && at + len
                <= bytes@.len() && value == decimal_value(
                bytes@.subrange(at as int, at + len),
            ),
            None => digit_run(bytes@.skip(at as int)) == 0 || decimal_value(
                bytes@.subrange(at as int, at + digit_run(bytes@.skip(at as int))),
            ) > u64::MAX,
        },
{
    let n: usize = bytes.len();
    let ghost rest = bytes@.skip(at as int);
    let mut value: u64 = 0;
    let mut i: usize = at;
    let mut overflow: bool = false;
    proof {
        assert(bytes@.skip(at as int) =~= rest);
        assert(bytes@.subrange(at as int, at as int) =~= Seq::<u8>::empty());
    }
    while i < n && bytes[i] >= 48 && bytes[i] <= 57
        invariant
            at <= i <= n,
            n == bytes@.len(),
            rest == bytes@.skip(at as int),
            digit_run(rest) == (i - at) + digit_run(bytes@.skip(i as int)),
            !overflow ==> value == decimal_value(bytes@.subrange(at as int, i as int)),
            overflow ==> decimal_value(bytes@.subrange(at as int, i as int)) > u64::MAX,
        decreases n - i,
    {
        let d: u64 = (bytes[i] - 48) as u64;
        proof {
            let next = bytes@.subrange(at as int, i + 1);
            assert(next.drop_last() =~= bytes@.subrange(at as int, i as int));
            assert(next.last() == bytes@[i as int]);
            assert(bytes@.skip(i as int).skip(1) =~= bytes@.skip(i + 1));
            assert(bytes@.skip(i as int)[0] == bytes@[i as int]);
        }
        if overflow || value > (u64::MAX - d) / 10 {
            proof {
                let before = decimal_value(bytes@.subrange(at as int, i as int));
                assert(before * 10 + d > u64::MAX) by (nonlinear_arith)
                    requires
                        before > (u64::MAX - d) / 10 || before > u64::MAX,
                        0 <= d <= 9,
                ;
            }
            overflow = true;
        } else {
            proof {
                assert(value * 10 + d <= u64::MAX) by (nonlinear_arith)
                    requires
                        value <= (u64::MAX - d) / 10,
                        0 <= d <= 9,
                ;
            }
            value = value * 10 + d;
        }
        i += 1;
    }
    proof {
        if i < n {
            assert(bytes@.skip(i as int)[0] == bytes@[i as int]);
        }
        assert(digit_run(bytes@.skip(i as int)) == 0);
    }
    if i == at || overflow {
        None
    } else {
        Some((value, i - at))
    }
}

} // verus!
