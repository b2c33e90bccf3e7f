//! The log of a rescue: four lines of text that say how far a run has come,
//! so that a later run can go on from there.
//!
//! ```text
//! bytes_processed=<number>
//! blocks_processed=<number>
//! meta_blocks_processed=<number>
//! data_blocks_processed=<number>
//! ```

use vstd::prelude::*;
use crate::buffer::append_bytes;
use crate::decimal::all_digits;
use crate::decimal::append_decimal;
use crate::decimal::decimal;
use crate::decimal::decimal_value;
use crate::decimal::digit_run;
use crate::decimal::lemma_decimal;
use crate::decimal::lemma_digit_run;
use crate::decimal::read_decimal;

verus! {

/// Why a log could not be used.
#[derive(Clone, Copy, Debug, PartialEq, Eq, Structural)]
pub enum ErrorKind {
    ParseError,
}

/// An error met while a log was read, with the path of the log.
#[derive(Debug)]
pub struct LogError {
    pub kind: ErrorKind,
    pub path: String,
}

impl LogError {
    /// An error of the given kind for the log at `path`.
    pub fn new(kind: ErrorKind, path: &str) -> (r: LogError)
        ensures
            r.kind == kind,
            r.path@ == path@,
    {
        LogError { kind, path: path.to_owned() }
    }
}

/// Where the log of a run is kept, if it is kept at all.
#[derive(Debug)]
pub struct LogHandler {
    pub log_file: Option<String>,
}

impl LogHandler {
    /// A handler for the log at `log_file`, or for none.
    pub fn new(log_file: Option<&str>) -> (r: LogHandler)
        ensures
            match log_file {
                Some(path) => r.log_file is Some && r.log_file->0@ == path@,
                None => r.log_file is None,
            },
    {
        LogHandler {
            log_file: match log_file {
                Some(path) => Some(path.to_owned()),
                None => None,
            },
        }
    }
}

/// What can be written to a log and read back from one.
pub trait Log: Sized {
    /// The text of the log for a value.
    spec fn log_of(&self) -> Seq<u8>;

    /// The value after it has taken over what a log says, where the text is
    /// a log.
    spec fn with_log(&self, input: Seq<u8>) -> Option<Self>;

    /// The text of the log.
    fn serialize(&self) -> (r: Vec<u8>)
        ensures
            r@ == self.log_of(),
    ;

    /// Takes over what a log says; fails, and changes nothing, where the
    /// text is no log.
    fn deserialize(&mut self, input: &[u8]) -> (r: Result<(), ()>)
        ensures
            match r {
                Ok(()) => old(self).with_log(input@) == Some(*final(self)),
                Err(()) => old(self).with_log(input@) is None && *final(self) == *old(self),
            },
    ;
}

/// The bytes of `bytes_processed=`.
pub open spec fn tag_bytes() -> Seq<u8> {
    seq![98u8, 121u8, 116u8, 101u8, 115u8, 95u8, 112u8, 114u8, 111u8, 99u8, 101u8, 115u8, 115u8, 101u8, 100u8, 61u8]
}

/// The bytes of `blocks_processed=`.
pub open spec fn tag_blocks() -> Seq<u8> {
    seq![98u8, 108u8, 111u8, 99u8, 107u8, 115u8, 95u8, 112u8, 114u8, 111u8, 99u8, 101u8, 115u8, 115u8, 101u8, 100u8, 61u8]
}

/// The bytes of `meta_blocks_processed=`.
pub open spec fn tag_meta() -> Seq<u8> {
    seq![109u8, 101u8, 116u8, 97u8, 95u8, 98u8, 108u8, 111u8, 99u8, 107u8, 115u8, 95u8, 112u8, 114u8, 111u8, 99u8, 101u8, 115u8, 115u8, 101u8, 100u8, 61u8]
}

/// The bytes of `data_blocks_processed=`.
pub open spec fn tag_data() -> Seq<u8> {
    seq![100u8, 97u8, 116u8, 97u8, 95u8, 98u8, 108u8, 111u8, 99u8, 107u8, 115u8, 95u8, 112u8, 114u8, 111u8, 99u8, 101u8, 115u8, 115u8, 101u8, 100u8, 61u8]
}

/// One line of a log: the name, the number, a line feed.
pub open spec fn log_line(tag: Seq<u8>, value: nat) -> Seq<u8> {
    tag + decimal(value) + seq![10u8]
}

/// The text of a log.
pub open spec fn log_text(bytes: nat, blocks: nat, meta: nat, data: nat) -> Seq<u8> {
    log_line(tag_bytes(), bytes) + log_line(tag_blocks(), blocks) + log_line(tag_meta(), meta)
        + log_line(tag_data(), data)
}

/// The digits of the line that `b` begins with, if `b` begins with a line of
/// the name given.
pub open spec fn line_number(b: Seq<u8>, tag: Seq<u8>) -> Seq<u8> {
    b.subrange(tag.len() as int, (tag.len() + line_digits(b, tag)->0) as int)
}

/// What follows the line that `b` begins with.
pub open spec fn after_line(b: Seq<u8>, tag: Seq<u8>) -> Seq<u8> {
    b.skip((tag.len() + line_digits(b, tag)->0 + 1) as int)
}

/// The digits of the four lines of a log, if `b` begins with the four lines
/// in their order; what follows the fourth line is not looked at.
pub open spec fn log_lines(b: Seq<u8>) -> Option<(Seq<u8>, Seq<u8>, Seq<u8>, Seq<u8>)> {
    let b1 = after_line(b, tag_bytes());
    let b2 = after_line(b1, tag_blocks());
    let b3 = after_line(b2, tag_meta());
    if line_digits(b, tag_bytes()) is Some && line_digits(b1, tag_blocks()) is Some
        && line_digits(b2, tag_meta()) is Some && line_digits(b3, tag_data()) is Some {
        Some(
            (
                line_number(b, tag_bytes()),
                line_number(b1, tag_blocks()),
                line_number(b2, tag_meta()),
                line_number(b3, tag_data()),
            ),
        )
    } else {
        None
    }
}

/// The four numbers of a log, if `b` begins with one: four lines in their
/// order, each with a number that a `u64` can hold.
pub open spec fn parse_log(b: Seq<u8>) -> Option<(nat, nat, nat, nat)> {
    match log_lines(b) {
        None => None,
        Some(lines) => if number_of(lines.0) is Some && number_of(lines.1) is Some && number_of(
            lines.2,
        ) is Some && number_of(lines.3) is Some {
            Some(
                (
                    number_of(lines.0)->0 as nat,
                    number_of(lines.1)->0 as nat,
                    number_of(lines.2)->0 as nat,
                    number_of(lines.3)->0 as nat,
                ),
            )
        } else {
            None
        },
    }
}

/// A line that was written is found again, whatever follows it.
pub proof fn lemma_line_round_trip(tag: Seq<u8>, value: nat, tail: Seq<u8>)
    requires
        value <= u64::MAX,
    ensures
        line_digits(log_line(tag, value) + tail, tag) == Some(decimal(value).len()),
        line_number(log_line(tag, value) + tail, tag) == decimal(value),
        after_line(log_line(tag, value) + tail, tag) == tail,
        number_of(decimal(value)) == Some(value as u64),
{
    let line = log_line(tag, value);
    let b = line + tail;
    let digits = decimal(value);
    lemma_decimal(value);
    assert(b.subrange(0, tag.len() as int) =~= tag);
    let after = seq![10u8] + tail;
    assert(b.skip(tag.len() as int) =~= digits + after);
    lemma_digit_run(digits, after);
    assert(b.subrange(tag.len() as int, (tag.len() + digits.len()) as int) =~= digits);
    assert(b[(tag.len() + digits.len()) as int] == 10);
    assert(b.skip((tag.len() + digits.len() + 1) as int) =~= tail);
}

/// A log that was written is read back, whatever follows it.
pub proof fn lemma_log_round_trip(bytes: nat, blocks: nat, meta: nat, data: nat, tail: Seq<u8>)
    requires
        bytes <= u64::MAX,
        blocks <= u64::MAX,
        meta <= u64::MAX,
        data <= u64::MAX,
    ensures
        parse_log(log_text(bytes, blocks, meta, data) + tail) == Some((bytes, blocks, meta, data)),
{
    let l1 = log_line(tag_bytes(), bytes);
    let l2 = log_line(tag_blocks(), blocks);
    let l3 = log_line(tag_meta(), meta);
    let l4 = log_line(tag_data(), data);
    let b = log_text(bytes, blocks, meta, data) + tail;
    let t3 = l4 + tail;
    let t2 = l3 + t3;
    let t1 = l2 + t2;
    assert(b =~= l1 + t1);
    lemma_line_round_trip(tag_bytes(), bytes, t1);
    lemma_line_round_trip(tag_blocks(), blocks, t2);
    lemma_line_round_trip(tag_meta(), meta, t3);
    lemma_line_round_trip(tag_data(), data, tail);
}

fn tag_bytes_bytes() -> (r: [u8; 16])
    ensures
        r@ == tag_bytes(),
{
    let r: [u8; 16] = [98, 121, 116, 101, 115, 95, 112, 114, 111, 99, 101, 115, 115, 101, 100, 61];
    assert(r@ =~= tag_bytes());
    r
}

fn tag_blocks_bytes() -> (r: [u8; 17])
    ensures
        r@ == tag_blocks(),
{
    let r: [u8; 17] = [98, 108, 111, 99, 107, 115, 95, 112, 114, 111, 99, 101, 115, 115, 101, 100, 61];
    assert(r@ =~= tag_blocks());
    r
}

fn tag_meta_bytes() -> (r: [u8; 22])
    ensures
        r@ == tag_meta(),
{
    let r: [u8; 22] = [109, 101, 116, 97, 95, 98, 108, 111, 99, 107, 115, 95, 112, 114, 111, 99, 101, 115, 115, 101, 100, 61];
    assert(r@ =~= tag_meta());
    r
}

fn tag_data_bytes() -> (r: [u8; 22])
    ensures
        r@ == tag_data(),
{
    let r: [u8; 22] = [100, 97, 116, 97, 95, 98, 108, 111, 99, 107, 115, 95, 112, 114, 111, 99, 101, 115, 115, 101, 100, 61];
    assert(r@ =~= tag_data());
    r
}

/// The number that bytes spell, if they are decimal digits throughout, at
/// least one, and spell a number that a `u64` can hold.
pub open spec fn number_of(digits: Seq<u8>) -> Option<u64> {
    if digits.len() >= 1 && all_digits(digits) && decimal_value(digits) <= u64::MAX {
        Some(decimal_value(digits) as u64)
    } else {
        None
    }
}

fn parse_number(digits: &[u8]) -> (r: Option<u64>)
    ensures
        r == number_of(digits@),
{
    proof {
        crate::decimal::lemma_digit_run_bounds(digits@);
        assert(digits@.skip(0) =~= digits@);
        let run = digit_run(digits@);
        if run == digits@.len() {
            assert(digits@.subrange(0, run as int) =~= digits@);
        } else {
            assert(!crate::decimal::is_digit(digits@[run as int]));
        }
    }
    match read_decimal(digits, 0) {
        Some((value, run)) => {
            if run == digits.len() {
                Some(value)
            } else {
                None
            }
        },
        None => None,
    }
}

/// Reads the four numbers of a log from the digits of its four lines.
pub fn parse_digits(bytes: &[u8], blocks: &[u8], meta: &[u8], data: &[u8]) -> (r: Result<
    (u64, u64, u64, u64),
    (),
>)
    ensures
        match r {
            Ok((a, b, c, d)) => number_of(bytes@) == Some(a) && number_of(blocks@) == Some(b)
                && number_of(meta@) == Some(c) && number_of(data@) == Some(d),
            Err(()) => number_of(bytes@) is None || number_of(blocks@) is None || number_of(meta@)
                is None || number_of(data@) is None,
        },
{
    let a: u64 = match parse_number(bytes) {
        Some(x) => x,
        None => {
            return Err(());
        },
    };
    let b: u64 = match parse_number(blocks) {
        Some(x) => x,
        None => {
            return Err(());
        },
    };
    let c: u64 = match parse_number(meta) {
        Some(x) => x,
        None => {
            return Err(());
        },
    };
    let d: u64 = match parse_number(data) {
        Some(x) => x,
        None => {
            return Err(());
        },
    };
    Ok((a, b, c, d))
}

/// Appends one line of a log.
fn append_line(out: &mut Vec<u8>, tag: &[u8], value: u64)
    ensures
        final(out)@ == old(out)@ + log_line(tag@, value as nat),
{
    append_bytes(out, tag);
    append_decimal(out, value);
    out.push(10);
    assert(out@ =~= old(out)@ + log_line(tag@, value as nat));
}

/// The text of a log.
pub fn write_log(bytes: u64, blocks: u64, meta: u64, data: u64) -> (r: Vec<u8>)
    ensures
        r@ == log_text(bytes as nat, blocks as nat, meta as nat, data as nat),
{
    let mut r: Vec<u8> = Vec::new();
    append_line(&mut r, tag_bytes_bytes().as_slice(), bytes);
    append_line(&mut r, tag_blocks_bytes().as_slice(), blocks);
    append_line(&mut r, tag_meta_bytes().as_slice(), meta);
    append_line(&mut r, tag_data_bytes().as_slice(), data);
    assert(r@ =~= log_text(bytes as nat, blocks as nat, meta as nat, data as nat));
    r
}

/// The number of digits in the line that `b` begins with, if `b` begins
/// with a line of the name given: the name, at least one digit, and a line
/// feed.
pub open spec fn line_digits(b: Seq<u8>, tag: Seq<u8>) -> Option<nat> {
    if b.len() >= tag.len() && b.subrange(0, tag.len() as int) == tag {
        let run = digit_run(b.skip(tag.len() as int));
        if run >= 1 && tag.len() + run < b.len() && b[(tag.len() + run) as int] == 10 {
            Some(run)
        } else {
            None
        }
    } else {
        None
    }
}

/// Finds the digits of the line of the name given at `input[at..]`: where
/// they begin and how many they are.
fn find_line(input: &[u8], at: usize, tag: &[u8]) -> (r: Option<(usize, usize)>)
    requires
        at <= input@.len(),
    ensures
        match r {
            Some((from, run)) => line_digits(input@.skip(at as int), tag@) == Some(run as nat)
                && from + run + 1 <= input@.len() && input@.subrange(from as int, from + run)
                == line_number(input@.skip(at as int), tag@) && input@.skip(from + run + 1)
                == after_line(input@.skip(at as int), tag@),
            None => line_digits(input@.skip(at as int), tag@) is None,
        },
{
    let n: usize = input.len();
    let t: usize = tag.len();
    let ghost b = input@.skip(at as int);
    if n - at < t {
        return None;
    }
    assert(b.subrange(0, t as int) =~= input@.subrange(at as int, at + t));
    if !crate::buffer::bytes_equal(&input[at..at + t], tag) {
        return None;
    }
    let from: usize = at + t;
    assert(b.skip(t as int) =~= input@.skip(from as int));
    proof {
        crate::decimal::lemma_digit_run_bounds(input@.skip(from as int));
    }
    let mut run: usize = 0;
    while from + run < n && input[from + run] >= 48 && input[from + run] <= 57
        invariant
            from + run <= n,
            n == input@.len(),
            digit_run(input@.skip(from as int)) == run + digit_run(
                input@.skip((from + run) as int),
            ),
        decreases n - from - run,
    {
        proof {
            let rest = input@.skip((from + run) as int);
            assert(rest[0] == input@[from + run]);
            assert(rest.skip(1) =~= input@.skip(from + run + 1));
        }
        run += 1;
    }
    proof {
        let rest = input@.skip((from + run) as int);
        if from + run < n {
            assert(rest[0] == input@[from + run]);
        }
        assert(digit_run(rest) == 0);
        assert(b.len() == n - at);
        assert(from + run < n ==> b[t + run] == input@[from + run]);
        assert(b.subrange(t as int, t + run) =~= input@.subrange(from as int, from + run));
        if from + run < n {
            assert(b.skip(t + run + 1) =~= input@.skip(from + run + 1));
        }
    }
    if run >= 1 && from + run < n && input[from + run] == 10 {
        Some((from, run))
    } else {
        None
    }
}

/// Reads the four numbers of a log.
pub fn read_log(input: &[u8]) -> (r: Option<(u64, u64, u64, u64)>)
    ensures
        match r {
            Some((bytes, blocks, meta, data)) => parse_log(input@) == Some(
                (bytes as nat, blocks as nat, meta as nat, data as nat),
            ),
            None => parse_log(input@) is None,
        },
{
    let n: usize = input.len();
    assert(input@.skip(0) =~= input@);
    let (f1, r1) = match find_line(input, 0, tag_bytes_bytes().as_slice()) {
        Some(x) => x,
        None => {
            return None;
        },
    };
    let (f2, r2) = match find_line(input, f1 + r1 + 1, tag_blocks_bytes().as_slice()) {
        Some(x) => x,
        None => {
            return None;
        },
    };
    let (f3, r3) = match find_line(input, f2 + r2 + 1, tag_meta_bytes().as_slice()) {
        Some(x) => x,
        None => {
            return None;
        },
    };
    let (f4, r4) = match find_line(input, f3 + r3 + 1, tag_data_bytes().as_slice()) {
        Some(x) => x,
        None => {
            return None;
        },
    };
    match parse_digits(
        &input[f1..f1 + r1],
        &input[f2..f2 + r2],
        &input[f3..f3 + r3],
        &input[f4..f4 + r4],
    ) {
        Ok(numbers) => Some(numbers),
        Err(()) => None,
    }
}

} // verus!
