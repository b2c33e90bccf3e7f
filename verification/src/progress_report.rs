//! What a progress report says: how much of the work is done, and the bar
//! that shows it. When and where a report is printed is up to the caller.

use vstd::prelude::*;
use vstd::string::StringExecFns;
use vstd::string::StrSliceExecFns;

verus! {

/// How much is reported: nothing, a summary at the end, or progress as well.
#[derive(Copy, Clone, Debug, PartialEq, Eq, Structural)]
pub enum PRVerbosityLevel {
    L0,
    L1,
    L2,
}

/// The parts that a line of progress can show.
#[derive(Copy, Clone, Debug, PartialEq, Eq, Structural)]
pub enum ProgressElement {
    Percentage,
    ProgressBar,
    CurrentRateShort,
    AverageRateShort,
    UnitsProcessedShort,
    UnitsProcessedLong,
    TimeUsedShort,
    TimeLeftShort,
    CurrentRateLong,
    AverageRateLong,
    TimeUsedLong,
    TimeLeftLong,
}

/// Which parts of a progress line to show, and whether as JSON.
#[derive(Copy, Clone, Debug, PartialEq, Eq, Structural)]
pub struct VerbositySettings {
    pub verbose_while_active: bool,
    pub verbose_when_done: bool,
    pub json_enabled: bool,
}

impl VerbositySettings {
    /// The parts shown at `level`.
    pub fn new(level: PRVerbosityLevel, json_enabled: bool) -> (r: VerbositySettings)
        ensures
            r.verbose_while_active == (level == PRVerbosityLevel::L2),
            r.verbose_when_done == (level != PRVerbosityLevel::L0),
            r.json_enabled == json_enabled,
    {
        match level {
            PRVerbosityLevel::L0 => VerbositySettings {
                verbose_while_active: false,
                verbose_when_done: false,
                json_enabled,
            },
            PRVerbosityLevel::L1 => VerbositySettings {
                verbose_while_active: false,
                verbose_when_done: true,
                json_enabled,
            },
            PRVerbosityLevel::L2 => VerbositySettings {
                verbose_while_active: true,
                verbose_when_done: true,
                json_enabled,
            },
        }
    }

    /// Whether a report is to be printed now: while the work goes on only at
    /// the highest level, at its end at every level but the lowest, and never
    /// again once the report of the end has been printed.
    pub fn should_print(&self, finish: bool, finish_text_printed: bool) -> (r: bool)
        ensures
            r == (((self.verbose_while_active && !finish) || (self.verbose_when_done && finish))
                && !finish_text_printed),
    {
        ((self.verbose_while_active && !finish) || (self.verbose_when_done && finish))
            && !finish_text_printed
    }
}

/// The level that the digit `0`, `1` or `2` stands for.
pub open spec fn verbosity_level_of(s: Seq<char>) -> Option<PRVerbosityLevel> {
    if s == seq!['0'] {
        Some(PRVerbosityLevel::L0)
    } else if s == seq!['1'] {
        Some(PRVerbosityLevel::L1)
    } else if s == seq!['2'] {
        Some(PRVerbosityLevel::L2)
    } else {
        None
    }
}

/// Reads a verbosity level from its one-digit name: `0`, `1` or `2`.
pub fn string_to_verbosity_level(string: &str) -> (r: Result<PRVerbosityLevel, ()>)
    ensures
        match r {
            Ok(level) => verbosity_level_of(string@) == Some(level),
            Err(()) => verbosity_level_of(string@) is None,
        },
{
    if string.unicode_len() != 1 {
        return Err(());
    }
    let c: char = string.get_char(0);
    assert(string@ =~= seq![c]);
    if c == '0' {
        Ok(PRVerbosityLevel::L0)
    } else if c == '1' {
        Ok(PRVerbosityLevel::L1)
    } else if c == '2' {
        Ok(PRVerbosityLevel::L2)
    } else {
        assert(seq![c][0] == c);
        Err(())
    }
}

/// Percentage of the work that is done: the whole where there is nothing to
/// do, and never more than the whole.
pub open spec fn percent_done(units_so_far: int, total_units: int) -> int {
    if total_units == 0 {
        100
    } else if (100 * units_so_far) / total_units > 100 {
        100
    } else {
        (100 * units_so_far) / total_units
    }
}

/// Share of the work that is done, in whole percent and never above 100; all
/// of it where there is nothing to do.
pub fn calc_percent(units_so_far: u64, total_units: u64) -> (r: usize)
    ensures
        r == percent_done(units_so_far as int, total_units as int),
        r <= 100,
{
    if total_units == 0 {
        100
    } else {
        let scaled: u128 = 100u128 * (units_so_far as u128);
        let percent: u128 = scaled / (total_units as u128);
        proof {
            vstd::arithmetic::div_mod::lemma_div_pos_is_pos(scaled as int, total_units as int);
        }
        if percent > 100 {
            100
        } else {
            percent as usize
        }
    }
}

/// Units that are still to be done; none where more is done than was to do.
pub fn calc_units_remaining(units_so_far: u64, total_units: u64) -> (r: u64)
    ensures
        r == (if total_units >= units_so_far {
            total_units - units_so_far
        } else {
            0
        }),
{
    if total_units >= units_so_far {
        total_units - units_so_far
    } else {
        0
    }
}

/// Width of the progress bar between its brackets.
pub const PROGRESS_BAR_LEN: usize = 25;

/// `n` times the character `c`.
pub open spec fn repeated_char(c: char, n: nat) -> Seq<char> {
    Seq::new(n, |i: int| c)
}

/// The bar for a percentage: as many `#` as the part that is done, `-` for
/// the rest, in brackets.
pub open spec fn progress_bar(percent: int) -> Seq<char> {
    let filled = (PROGRESS_BAR_LEN as int * percent) / 100;
    seq!['['] + repeated_char('#', filled as nat) + repeated_char(
        '-',
        (PROGRESS_BAR_LEN - filled) as nat,
    ) + seq![']']
}

/// Draws a bar of 25 cells for `percent`, with the percentage behind it.
pub fn make_progress_bar(percent: usize) -> (r: String)
    requires
        percent <= 100,
    ensures
        r@ == progress_bar(percent as int),
        r@.len() == PROGRESS_BAR_LEN + 2,
{
    let total_len: usize = PROGRESS_BAR_LEN;
    let filled_len: usize = total_len * percent / 100;
    let empty_len: usize = total_len - filled_len;
    proof {
        reveal_strlit("[");
        reveal_strlit("#");
        reveal_strlit("-");
        reveal_strlit("]");
    }
    let mut res: String = String::from_str("[");
    assert(res@ =~= seq!['['] + repeated_char('#', 0));
    let mut i: usize = 0;
    while i < filled_len
        invariant
            i <= filled_len,
            "#"@ == seq!['#'],
            res@ == seq!['['] + repeated_char('#', i as nat),
        decreases filled_len - i,
    {
        res.append("#");
        assert(res@ =~= seq!['['] + repeated_char('#', (i + 1) as nat));
        i += 1;
    }
    let mut i: usize = 0;
    assert(res@ =~= seq!['['] + repeated_char('#', filled_len as nat) + repeated_char('-', 0));
    while i < empty_len
        invariant
            i <= empty_len,
            "-"@ == seq!['-'],
            res@ == seq!['['] + repeated_char('#', filled_len as nat) + repeated_char(
                '-',
                i as nat,
            ),
        decreases empty_len - i,
    {
        res.append("-");
        assert(res@ =~= seq!['['] + repeated_char('#', filled_len as nat) + repeated_char(
            '-',
            (i + 1) as nat,
        ));
        i += 1;
    }
    res.append("]");
    res
}

} // verus!
