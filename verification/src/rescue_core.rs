//! Rescue: every block that the scanner finds in a stream of bytes is picked
//! out, to be kept with the other blocks of its file UID. A run can stop at
//! any step and a later run go on from what the log says.

use vstd::prelude::*;
use crate::block_utils::ReadResult;
use crate::block_utils::lazy_read_eof;
use crate::block_utils::lazy_read_len;
use crate::block_utils::lazy_read_usable;
use crate::block_utils::read_block_lazily;
use crate::buffer::bytes_equal;
use crate::general_error::Error;
use crate::log::Log;
use crate::log::log_text;
use crate::log::parse_log;
use crate::log::read_log;
use crate::log::write_log;
use crate::misc_utils::PositionOrLength;
use crate::misc_utils::RangeEnd;
use crate::misc_utils::RequiredLenAndSeekTo;
use crate::misc_utils::at_most;
use crate::misc_utils::calc_required_len_and_seek_to_from_byte_range;
use crate::misc_utils::ensure_at_most;
use crate::misc_utils::required_len_and_seek_to;
use crate::misc_utils::round_down_to_multiple;
use crate::misc_utils::rounded_down;
use crate::progress_report::PRVerbosityLevel;
use crate::sbx_block::Block;
use crate::sbx_block::BlockType;
use crate::sbx_block::data_block_type;
use crate::sbx_block::parse_block;
use crate::sbx_specs::SBX_FILE_UID_LEN;
use crate::sbx_specs::SBX_SCAN_BLOCK_SIZE;

verus! {

/// What a rescue is asked to do: which part of the stream to scan and which
/// blocks to pick.
#[derive(Debug)]
pub struct Param {
    pub in_file: String,
    pub out_dir: String,
    pub log_file: Option<String>,
    pub from_pos: Option<u64>,
    pub to_pos: Option<RangeEnd<u64>>,
    pub force_misalign: bool,
    pub only_pick_block: Option<BlockType>,
    pub only_pick_uid: Option<[u8; SBX_FILE_UID_LEN]>,
    pub pr_verbosity_level: PRVerbosityLevel,
}

impl Param {
    /// Gathers the settings of a rescue.
    pub fn new(
        in_file: &str,
        out_dir: &str,
        log_file: Option<&str>,
        from_pos: Option<u64>,
        to_pos: Option<RangeEnd<u64>>,
        force_misalign: bool,
        only_pick_block: Option<BlockType>,
        only_pick_uid: Option<&[u8; SBX_FILE_UID_LEN]>,
        pr_verbosity_level: PRVerbosityLevel,
    ) -> (r: Param)
        ensures
            r.in_file@ == in_file@,
            r.out_dir@ == out_dir@,
            match log_file {
                Some(x) => r.log_file is Some && r.log_file->0@ == x@,
                None => r.log_file is None,
            },
            r.from_pos == from_pos,
            r.to_pos == to_pos,
            r.force_misalign == force_misalign,
            r.only_pick_block == only_pick_block,
            match only_pick_uid {
                Some(x) => r.only_pick_uid is Some && r.only_pick_uid->0@ == x@,
                None => r.only_pick_uid is None,
            },
            r.pr_verbosity_level == pr_verbosity_level,
    {
        Param {
            in_file: in_file.to_owned(),
            out_dir: out_dir.to_owned(),
            log_file: match log_file {
                None => None,
                Some(x) => Some(x.to_owned()),
            },
            from_pos,
            to_pos,
            force_misalign,
            only_pick_block,
            only_pick_uid: match only_pick_uid {
                None => None,
                Some(x) => Some(*x),
            },
            pr_verbosity_level,
        }
    }
}

/// How far a rescue has come: bytes scanned and blocks picked, by type.
#[derive(Clone, Copy, Debug, PartialEq, Eq, Structural)]
pub struct Stats {
    pub meta_or_par_blocks_processed: u64,
    pub data_or_par_blocks_processed: u64,
    pub bytes_processed: u64,
    pub total_bytes: u64,
}

/// A sum of counts, held at the largest number that can be counted.
pub open spec fn count_sum(a: int, b: int) -> int {
    at_most(u64::MAX as int, a + b)
}

fn add_counts(a: u64, b: u64) -> (r: u64)
    ensures
        r == count_sum(a as int, b as int),
{
    if b > u64::MAX - a {
        u64::MAX
    } else {
        a + b
    }
}

/// The stats that a log stands for in a run over `total_bytes` bytes: the
/// bytes done are kept within the total and rounded down to a whole scan
/// unit, the counts of blocks are taken as they are.
pub open spec fn stats_of_log(total_bytes: u64, log: (nat, nat, nat, nat)) -> Stats {
    Stats {
        bytes_processed: rounded_down(
            at_most(total_bytes as int, log.0 as int),
            SBX_SCAN_BLOCK_SIZE as int,
        ) as u64,
        meta_or_par_blocks_processed: log.2 as u64,
        data_or_par_blocks_processed: log.3 as u64,
        total_bytes,
    }
}

impl Stats {
    /// Progress at the start of a rescue of `required_len` bytes.
    pub fn new(required_len: u64) -> (r: Result<Stats, Error>)
        ensures
            r == Ok::<Stats, Error>(
                Stats {
                    meta_or_par_blocks_processed: 0,
                    data_or_par_blocks_processed: 0,
                    bytes_processed: 0,
                    total_bytes: required_len,
                },
            ),
    {
        Ok(
            Stats {
                meta_or_par_blocks_processed: 0,
                data_or_par_blocks_processed: 0,
                bytes_processed: 0,
                total_bytes: required_len,
            },
        )
    }

    /// The text of the log for these stats.
    pub fn to_log(&self) -> (r: Vec<u8>)
        ensures
            r@ == log_text(
                self.bytes_processed as nat,
                count_sum(
                    self.meta_or_par_blocks_processed as int,
                    self.data_or_par_blocks_processed as int,
                ) as nat,
                self.meta_or_par_blocks_processed as nat,
                self.data_or_par_blocks_processed as nat,
            ),
    {
        write_log(
            self.bytes_processed,
            add_counts(self.meta_or_par_blocks_processed, self.data_or_par_blocks_processed),
            self.meta_or_par_blocks_processed,
            self.data_or_par_blocks_processed,
        )
    }

    /// Takes over what a log says; the stats stay as they are where the text
    /// is no log.
    pub fn from_log(&mut self, input: &[u8]) -> (r: Result<(), ()>)
        ensures
            match r {
                Ok(()) => parse_log(input@) is Some && *final(self) == stats_of_log(
                    old(self).total_bytes,
                    parse_log(input@)->0,
                ),
                Err(()) => parse_log(input@) is None && *final(self) == *old(self),
            },
    {
        match read_log(input) {
            Some((bytes, _, meta, data)) => {
                self.bytes_processed = round_down_to_multiple(
                    ensure_at_most(self.total_bytes, bytes),
                    SBX_SCAN_BLOCK_SIZE as u64,
                );
                self.meta_or_par_blocks_processed = meta;
                self.data_or_par_blocks_processed = data;
                Ok(())
            },
            None => Err(()),
        }
    }
}

impl Log for Stats {
    open spec fn log_of(&self) -> Seq<u8> {
        log_text(
            self.bytes_processed as nat,
            count_sum(
                self.meta_or_par_blocks_processed as int,
                self.data_or_par_blocks_processed as int,
            ) as nat,
            self.meta_or_par_blocks_processed as nat,
            self.data_or_par_blocks_processed as nat,
        )
    }

    open spec fn with_log(&self, input: Seq<u8>) -> Option<Stats> {
        match parse_log(input) {
            Some(numbers) => Some(stats_of_log(self.total_bytes, numbers)),
            None => None,
        }
    }

    fn serialize(&self) -> (r: Vec<u8>) {
        self.to_log()
    }

    fn deserialize(&mut self, input: &[u8]) -> (r: Result<(), ()>) {
        self.from_log(input)
    }
}

/// A block that was picked out of a stream: where it lies, how long it is,
/// and the file UID under which it is kept.
#[derive(Clone, Copy, Debug, PartialEq)]
pub struct RescuedBlock {
    pub pos: usize,
    pub len: usize,
    pub uid: [u8; SBX_FILE_UID_LEN],
}

/// A picked block as plain values.
pub struct Picked {
    pub pos: int,
    pub len: int,
    pub uid: Seq<u8>,
}

impl View for RescuedBlock {
    type V = Picked;

    open spec fn view(&self) -> Picked {
        Picked { pos: self.pos as int, len: self.len as int, uid: self.uid@ }
    }
}

/// The picked blocks of a list as plain values.
pub open spec fn picked_views(blocks: Seq<RescuedBlock>) -> Seq<Picked> {
    Seq::new(blocks.len(), |i: int| blocks[i]@)
}

/// Which blocks are wanted.
pub struct Picks {
    pub only_pick_block: Option<BlockType>,
    pub only_pick_uid: Option<Seq<u8>>,
}

/// How far a run has come.
pub struct RescueState {
    /// Where the scanner stands.
    pub pos: int,
    pub bytes_processed: int,
    pub meta_blocks: int,
    pub data_blocks: int,
    /// The blocks picked so far.
    pub picked: Seq<Picked>,
    /// Whether the run has come to its end.
    pub done: bool,
}

/// Whether the block that the scanner finds at `pos` is wanted.
pub open spec fn is_wanted(s: Seq<u8>, pos: int, picks: Picks) -> bool {
    let b = parse_block(s.skip(pos))->Ok_0;
    &&& picks.only_pick_block matches Some(kind) ==> data_block_type(b.data) == kind
    &&& picks.only_pick_uid matches Some(uid) ==> b.header.uid == uid
}

/// One step of a run. The run is at its end once as many bytes are done as
/// the range is long, or when the stream ends within a step; the bytes of
/// that last step count as done. Otherwise the scanner's step is counted: a
/// block that it finds is counted by its kind, and picked if it is wanted.
pub open spec fn rescue_step(s: Seq<u8>, st: RescueState, required_len: int, picks: Picks) -> RescueState {
    if st.done || st.bytes_processed >= required_len {
        RescueState { done: true, ..st }
    } else {
        let len = lazy_read_len(s, st.pos);
        let moved = RescueState {
            pos: st.pos + len,
            bytes_processed: count_sum(st.bytes_processed, len),
            ..st
        };
        if lazy_read_eof(s, st.pos) {
            RescueState { done: true, ..moved }
        } else if !lazy_read_usable(s, st.pos) {
            moved
        } else {
            let b = parse_block(s.skip(st.pos))->Ok_0;
            let is_meta = b.data is Meta;
            RescueState {
                meta_blocks: if is_meta {
                    count_sum(st.meta_blocks, 1)
                } else {
                    st.meta_blocks
                },
                data_blocks: if is_meta {
                    st.data_blocks
                } else {
                    count_sum(st.data_blocks, 1)
                },
                picked: if is_wanted(s, st.pos, picks) {
                    st.picked.push(Picked { pos: st.pos, len, uid: b.header.uid })
                } else {
                    st.picked
                },
                ..moved
            }
        }
    }
}

/// What is left of a run, as a number that every step brings down.
pub open spec fn rescue_left(s: Seq<u8>, st: RescueState) -> int {
    if st.done {
        0
    } else if st.pos >= s.len() {
        1
    } else {
        1 + s.len() - st.pos
    }
}

/// A run to its end.
pub open spec fn rescue_run(s: Seq<u8>, st: RescueState, required_len: int, picks: Picks) -> RescueState
    decreases rescue_left(s, st),
{
    if st.done || st.pos < 0 || st.pos > s.len() {
        RescueState { done: true, ..st }
    } else {
        rescue_run(s, rescue_step(s, st, required_len, picks), required_len, picks)
    }
}

/// A run of `k` steps.
pub open spec fn rescue_steps(
    s: Seq<u8>,
    st: RescueState,
    required_len: int,
    picks: Picks,
    k: nat,
) -> RescueState
    decreases k,
{
    if k == 0 {
        st
    } else {
        rescue_steps(s, rescue_step(s, st, required_len, picks), required_len, picks, (k - 1) as nat)
    }
}

/// A run that stops after any number of steps and is taken up again where
/// it stopped ends as a run that never stopped.
pub proof fn lemma_rescue_resumable(
    s: Seq<u8>,
    st: RescueState,
    required_len: int,
    picks: Picks,
    k: nat,
)
    requires
        0 <= st.pos <= s.len(),
    ensures
        0 <= rescue_steps(s, st, required_len, picks, k).pos <= s.len(),
        rescue_run(s, rescue_steps(s, st, required_len, picks, k), required_len, picks)
            == rescue_run(s, st, required_len, picks),
    decreases k,
{
    if k > 0 {
        let next = rescue_step(s, st, required_len, picks);
        lemma_step_pos(s, st, required_len, picks);
        lemma_rescue_resumable(s, next, required_len, picks, (k - 1) as nat);
        if st.done {
            assert(next == st);
        }
    }
}

/// A step never moves the scanner back, nor behind the end of the stream;
/// a step that is not the last moves it on by a scan unit at least.
pub proof fn lemma_step_pos(s: Seq<u8>, st: RescueState, required_len: int, picks: Picks)
    requires
        0 <= st.pos <= s.len(),
    ensures
        st.pos <= rescue_step(s, st, required_len, picks).pos <= s.len(),
        !rescue_step(s, st, required_len, picks).done ==> rescue_step(
            s,
            st,
            required_len,
            picks,
        ).pos >= st.pos + SBX_SCAN_BLOCK_SIZE,
{
}

/// Where a run starts: at the position that the range and the bytes done so
/// far give, but not behind the end of the stream.
pub open spec fn rescue_start(s: Seq<u8>, seek_to: u64, stats: Stats, picked: Seq<Picked>) -> RescueState {
    RescueState {
        pos: at_most(s.len() as int, seek_to as int),
        bytes_processed: stats.bytes_processed as int,
        meta_blocks: stats.meta_or_par_blocks_processed as int,
        data_blocks: stats.data_or_par_blocks_processed as int,
        picked,
        done: false,
    }
}

/// The wanted blocks of a run, as the parameters name them.
pub open spec fn param_picks(param: Param) -> Picks {
    Picks {
        only_pick_block: param.only_pick_block,
        only_pick_uid: match param.only_pick_uid {
            Some(uid) => Some(uid@),
            None => None,
        },
    }
}

/// The range of a run over a stream, and where the run goes on from.
#[verifier::opaque]
pub open spec fn rescue_range(s: Seq<u8>, param: Param, bytes_so_far: u64) -> RequiredLenAndSeekTo {
    required_len_and_seek_to(
        param.from_pos,
        param.to_pos,
        param.force_misalign,
        bytes_so_far,
        PositionOrLength::Len(s.len() as u64),
        None,
    )
}

/// Picks the blocks of a stream. The run goes on from what `stats` says was
/// done before; its end is what a run from there comes to, step by step.
pub fn rescue(stream: &[u8], param: &Param, stats: Stats) -> (r: (Stats, Vec<RescuedBlock>))
    ensures
        ({
            let range = rescue_range(stream@, *param, stats.bytes_processed);
            let end = rescue_run(
                stream@,
                rescue_start(stream@, range.seek_to, stats, Seq::empty()),
                range.required_len as int,
                param_picks(*param),
            );
            &&& picked_views(r.1@) == end.picked
            &&& r.0.bytes_processed == end.bytes_processed
            &&& r.0.meta_or_par_blocks_processed == end.meta_blocks
            &&& r.0.data_or_par_blocks_processed == end.data_blocks
            &&& r.0.total_bytes == stats.total_bytes
        }),
{
    let len: usize = stream.len();
    proof {
        reveal(rescue_range);
    }
    let range: RequiredLenAndSeekTo = calc_required_len_and_seek_to_from_byte_range(
        param.from_pos,
        param.to_pos,
        param.force_misalign,
        stats.bytes_processed,
        PositionOrLength::Len(len as u64),
        None,
    );
    let required_len: u64 = range.required_len;
    let mut pos: usize = if range.seek_to > len as u64 {
        len
    } else {
        range.seek_to as usize
    };
    let ghost total_bytes = stats.total_bytes;
    let mut stats: Stats = stats;
    let mut picked: Vec<RescuedBlock> = Vec::new();
    let mut block: Block = Block::dummy();
    let ghost picks = param_picks(*param);
    let ghost start = rescue_start(stream@, range.seek_to, stats, Seq::empty());
    let ghost mut cur = start;
    assert(picked_views(picked@) =~= Seq::<Picked>::empty());
    loop
        invariant_except_break
            cur.pos == pos,
            !cur.done,
        invariant
            len == stream@.len(),
            len <= u64::MAX,
            stats.total_bytes == total_bytes,
            picks == param_picks(*param),
            0 <= pos <= len,
            cur.bytes_processed == stats.bytes_processed,
            cur.meta_blocks == stats.meta_or_par_blocks_processed,
            cur.data_blocks == stats.data_or_par_blocks_processed,
            cur.picked == picked_views(picked@),
            rescue_run(stream@, start, required_len as int, picks) == rescue_run(
                stream@,
                cur,
                required_len as int,
                picks,
            ),
        ensures
            cur.picked == picked_views(picked@),
            cur.bytes_processed == stats.bytes_processed,
            cur.meta_blocks == stats.meta_or_par_blocks_processed,
            cur.data_blocks == stats.data_or_par_blocks_processed,
            cur.done,
            rescue_run(stream@, start, required_len as int, picks) == rescue_run(
                stream@,
                cur,
                required_len as int,
                picks,
            ),
        decreases len - pos,
    {
        let ghost next = rescue_step(stream@, cur, required_len as int, picks);
        proof {
            lemma_step_pos(stream@, cur, required_len as int, picks);
        }
        if stats.bytes_processed >= required_len {
            proof {
                cur = next;
            }
            break ;
        }
        let res: ReadResult = read_block_lazily(&mut block, stream, pos);
        stats.bytes_processed = add_counts(stats.bytes_processed, res.len_read as u64);
        if res.eof {
            proof {
                cur = next;
            }
            break ;
        }
        let at: usize = pos;
        pos += res.len_read;
        if res.usable {
            match block.block_type() {
                BlockType::Meta => {
                    stats.meta_or_par_blocks_processed = add_counts(
                        stats.meta_or_par_blocks_processed,
                        1,
                    );
                },
                BlockType::Data => {
                    stats.data_or_par_blocks_processed = add_counts(
                        stats.data_or_par_blocks_processed,
                        1,
                    );
                },
            }
            let kind_wanted: bool = match param.only_pick_block {
                Some(kind) => block.block_type() == kind,
                None => true,
            };
            let uid: [u8; SBX_FILE_UID_LEN] = block.get_uid();
            let uid_wanted: bool = match &param.only_pick_uid {
                Some(x) => bytes_equal(uid.as_slice(), x.as_slice()),
                None => true,
            };
            if kind_wanted && uid_wanted {
                let ghost before = picked@;
                picked.push(RescuedBlock { pos: at, len: res.len_read, uid });
                assert(picked_views(picked@) =~= picked_views(before).push(
                    Picked { pos: at as int, len: res.len_read as int, uid: uid@ },
                ));
            }
        }
        proof {
            cur = next;
        }
    }
    (stats, picked)
}

/// The stats that a run starts from: nothing done, or what a log of an
/// earlier run says; a log that cannot be read counts for nothing.
#[verifier::opaque]
pub open spec fn stats_at_start(s: Seq<u8>, param: Param, log: Option<Seq<u8>>) -> Stats {
    let total_bytes = rescue_range(s, param, 0).required_len;
    let fresh = Stats {
        meta_or_par_blocks_processed: 0,
        data_or_par_blocks_processed: 0,
        bytes_processed: 0,
        total_bytes,
    };
    match log {
        Some(text) => match parse_log(text) {
            Some(numbers) => stats_of_log(total_bytes, numbers),
            None => fresh,
        },
        None => fresh,
    }
}

/// Picks the blocks of a stream, going on from the log of an earlier run
/// where one is given.
pub fn rescue_from_file(stream: &[u8], param: &Param, log: Option<&[u8]>) -> (r: (
    Stats,
    Vec<RescuedBlock>,
))
    ensures
        ({
            let stats = stats_at_start(
                stream@,
                *param,
                match log {
                    Some(text) => Some(text@),
                    None => None,
                },
            );
            let range = rescue_range(stream@, *param, stats.bytes_processed);
            let end = rescue_run(
                stream@,
                rescue_start(stream@, range.seek_to, stats, Seq::empty()),
                range.required_len as int,
                param_picks(*param),
            );
            &&& picked_views(r.1@) == end.picked
            &&& r.0.bytes_processed == end.bytes_processed
            &&& r.0.meta_or_par_blocks_processed == end.meta_blocks
            &&& r.0.data_or_par_blocks_processed == end.data_blocks
            &&& r.0.total_bytes == stats.total_bytes
        }),
{
    proof {
        reveal(rescue_range);
        reveal(stats_at_start);
    }
    let range: RequiredLenAndSeekTo = calc_required_len_and_seek_to_from_byte_range(
        param.from_pos,
        param.to_pos,
        param.force_misalign,
        0,
        PositionOrLength::Len(stream.len() as u64),
        None,
    );
    let mut stats: Stats = Stats {
        meta_or_par_blocks_processed: 0,
        data_or_par_blocks_processed: 0,
        bytes_processed: 0,
        total_bytes: range.required_len,
    };
    match log {
        Some(text) => {
            let _ = stats.from_log(text);
        },
        None => {},
    }
    rescue(stream, param, stats)
}

/// The stats that a run writes to its log at a step are the stats that the
/// next run reads from it, as long as the bytes done are whole scan units
/// within the total.
pub proof fn lemma_stats_through_log(stats: Stats, tail: Seq<u8>)
    requires
        stats.bytes_processed % (SBX_SCAN_BLOCK_SIZE as u64) == 0,
        stats.bytes_processed <= stats.total_bytes,
    ensures
        parse_log(stats.log_of() + tail) is Some,
        stats_of_log(stats.total_bytes, parse_log(stats.log_of() + tail)->0) == stats,
{
    crate::log::lemma_log_round_trip(
        stats.bytes_processed as nat,
        count_sum(
            stats.meta_or_par_blocks_processed as int,
            stats.data_or_par_blocks_processed as int,
        ) as nat,
        stats.meta_or_par_blocks_processed as nat,
        stats.data_or_par_blocks_processed as nat,
        tail,
    );
}

/// Whether a run that started at `start` with nothing done stands between
/// two steps: the bytes done are those that the scanner has moved over, in
/// whole scan units, and no more blocks are counted than it has taken steps.
pub open spec fn between_steps(s: Seq<u8>, st: RescueState, start: int) -> bool {
    &&& !st.done
    &&& 0 <= start <= st.pos <= s.len()
    &&& st.bytes_processed == st.pos - start
    &&& st.bytes_processed % (SBX_SCAN_BLOCK_SIZE as int) == 0
    &&& 0 <= st.meta_blocks
    &&& 0 <= st.data_blocks
    &&& (st.meta_blocks + st.data_blocks) * SBX_SCAN_BLOCK_SIZE <= st.bytes_processed
}

/// A step that is not the last leaves the run between two steps.
pub proof fn lemma_step_between(
    s: Seq<u8>,
    st: RescueState,
    required_len: int,
    picks: Picks,
    start: int,
)
    requires
        s.len() <= u64::MAX,
        between_steps(s, st, start),
        !rescue_step(s, st, required_len, picks).done,
    ensures
        between_steps(s, rescue_step(s, st, required_len, picks), start),
{
    lemma_step_pos(s, st, required_len, picks);
}

/// Once a run is at its end, it stays there.
pub proof fn lemma_done_stays(s: Seq<u8>, st: RescueState, required_len: int, picks: Picks, k: nat)
    requires
        st.done,
    ensures
        rescue_steps(s, st, required_len, picks, k) == st,
    decreases k,
{
    if k > 0 {
        lemma_done_stays(s, st, required_len, picks, (k - 1) as nat);
    }
}

/// A run that has not come to its end after `k` steps stands between two steps.
pub proof fn lemma_steps_between(
    s: Seq<u8>,
    st: RescueState,
    required_len: int,
    picks: Picks,
    start: int,
    k: nat,
)
    requires
        s.len() <= u64::MAX,
        between_steps(s, st, start),
        !rescue_steps(s, st, required_len, picks, k).done,
    ensures
        between_steps(s, rescue_steps(s, st, required_len, picks, k), start),
    decreases k,
{
    if k > 0 {
        let next = rescue_step(s, st, required_len, picks);
        if next.done {
            lemma_done_stays(s, next, required_len, picks, (k - 1) as nat);
        }
        lemma_step_between(s, st, required_len, picks, start);
        lemma_steps_between(s, next, required_len, picks, start, (k - 1) as nat);
    }
}

/// Where a run goes on from after `done` bytes, in whole scan units, is
/// where a run from the start stands after as many bytes; the length of the
/// range is the same.
pub proof fn lemma_range_moves(
    from_pos: Option<u64>,
    to_pos: Option<RangeEnd<u64>>,
    force_misalign: bool,
    len: u64,
    done: u64,
)
    requires
        done % (SBX_SCAN_BLOCK_SIZE as u64) == 0,
        required_len_and_seek_to(
            from_pos,
            to_pos,
            force_misalign,
            0,
            PositionOrLength::Len(len),
            None,
        ).seek_to + done <= len,
    ensures
        required_len_and_seek_to(
            from_pos,
            to_pos,
            force_misalign,
            done,
            PositionOrLength::Len(len),
            None,
        ).required_len == required_len_and_seek_to(
            from_pos,
            to_pos,
            force_misalign,
            0,
            PositionOrLength::Len(len),
            None,
        ).required_len,
        required_len_and_seek_to(
            from_pos,
            to_pos,
            force_misalign,
            done,
            PositionOrLength::Len(len),
            None,
        ).seek_to == required_len_and_seek_to(
            from_pos,
            to_pos,
            force_misalign,
            0,
            PositionOrLength::Len(len),
            None,
        ).seek_to + done,
        required_len_and_seek_to(
            from_pos,
            to_pos,
            force_misalign,
            0,
            PositionOrLength::Len(len),
            None,
        ).seek_to <= len,
{
    if len > 0 {
        let last = len - 1;
        let from = match from_pos {
            None => 0,
            Some(n) => crate::misc_utils::aligned(
                at_most(last, n as int),
                SBX_SCAN_BLOCK_SIZE as int,
                force_misalign,
            ),
        };
        assert(0 <= from <= last);
        assert(SBX_SCAN_BLOCK_SIZE == 128);
        if !force_misalign {
            if let Some(n) = from_pos {
                let x = at_most(last, n as int);
                assert(from == x - x % 128);
                assert((x - x % 128) % 128 == 0);
            }
            assert(from % 128 == 0);
            assert(done % 128 == 0);
            assert((from + done) % 128 == 0);
        }
        assert(crate::misc_utils::aligned(from, SBX_SCAN_BLOCK_SIZE as int, force_misalign)
            == from);
        assert(crate::misc_utils::aligned(
            from + done,
            SBX_SCAN_BLOCK_SIZE as int,
            force_misalign,
        ) == from + done);
    }
}

/// The stats of a run that stands between two steps.
pub open spec fn stats_between(st: RescueState, total_bytes: u64) -> Stats {
    Stats {
        bytes_processed: st.bytes_processed as u64,
        meta_or_par_blocks_processed: st.meta_blocks as u64,
        data_or_par_blocks_processed: st.data_blocks as u64,
        total_bytes,
    }
}

/// A run that stands between two steps is where a run stands that starts
/// from its stats and its picked blocks.
pub proof fn lemma_taken_up(s: Seq<u8>, st: RescueState, start: int, seek_to: u64, total_bytes: u64)
    requires
        s.len() <= u64::MAX,
        between_steps(s, st, start),
        seek_to == st.pos,
    ensures
        rescue_start(s, seek_to, stats_between(st, total_bytes), st.picked) == st,
        stats_between(st, total_bytes).bytes_processed == st.bytes_processed,
        stats_between(st, total_bytes).bytes_processed % (SBX_SCAN_BLOCK_SIZE as u64) == 0,
{
    assert((st.meta_blocks + st.data_blocks) <= st.bytes_processed) by (nonlinear_arith)
        requires
            (st.meta_blocks + st.data_blocks) * SBX_SCAN_BLOCK_SIZE <= st.bytes_processed,
            st.meta_blocks + st.data_blocks >= 0,
    ;
}

/// A run over a stream starts within the stream.
pub proof fn lemma_rescue_range_start(s: Seq<u8>, param: Param)
    requires
        s.len() <= u64::MAX,
    ensures
        rescue_range(s, param, 0).seek_to <= s.len(),
{
    reveal(rescue_range);
    let len = s.len() as u64;
    assert(SBX_SCAN_BLOCK_SIZE == 128);
    if len > 0 {
        let last = len - 1;
        let from = match param.from_pos {
            None => 0,
            Some(n) => crate::misc_utils::aligned(
                at_most(last, n as int),
                SBX_SCAN_BLOCK_SIZE as int,
                param.force_misalign,
            ),
        };
        if let Some(n) = param.from_pos {
            let x = at_most(last, n as int);
            assert(0 <= x % 128 < 128);
            assert(0 <= x - x % 128 <= x);
        }
        assert(0 <= from <= last);
        assert(0 <= from % 128 < 128);
        assert(crate::misc_utils::aligned(from, SBX_SCAN_BLOCK_SIZE as int, param.force_misalign)
            <= from);
    }
}

/// Where a run over a stream goes on from after `done` bytes, in whole scan
/// units, is where a run from the start stands after as many bytes; the
/// length of the range is the same.
pub proof fn lemma_rescue_range_moves(s: Seq<u8>, param: Param, done: u64)
    requires
        s.len() <= u64::MAX,
        done % (SBX_SCAN_BLOCK_SIZE as u64) == 0,
        rescue_range(s, param, 0).seek_to + done <= s.len(),
    ensures
        rescue_range(s, param, done).required_len == rescue_range(s, param, 0).required_len,
        rescue_range(s, param, done).seek_to == rescue_range(s, param, 0).seek_to + done,
        rescue_range(s, param, 0).seek_to <= s.len(),
{
    reveal(rescue_range);
    lemma_range_moves(param.from_pos, param.to_pos, param.force_misalign, s.len() as u64, done);
}

/// The stats that a run starts from: nothing done where there is no log, and
/// what the log of an earlier run says where that run wrote it between two
/// steps.
pub proof fn lemma_stats_at_start(s: Seq<u8>, param: Param, stats: Stats, tail: Seq<u8>)
    requires
        stats.total_bytes == rescue_range(s, param, 0).required_len,
        stats.bytes_processed % (SBX_SCAN_BLOCK_SIZE as u64) == 0,
        stats.bytes_processed <= stats.total_bytes,
    ensures
        stats_at_start(s, param, None) == (Stats {
            meta_or_par_blocks_processed: 0,
            data_or_par_blocks_processed: 0,
            bytes_processed: 0,
            total_bytes: rescue_range(s, param, 0).required_len,
        }),
        stats_at_start(s, param, Some(stats.log_of() + tail)) == stats,
{
    reveal(stats_at_start);
    lemma_stats_through_log(stats, tail);
}

/// Rescue resumability: a run that is stopped between two steps, and whose
/// stats at that point are written to the log, is taken up by the next run
/// where it stopped, and the two runs together come to the end that a run
/// which was never stopped comes to.
pub proof fn lemma_rescue_resumed_from_log(s: Seq<u8>, param: Param, k: nat, tail: Seq<u8>)
    requires
        s.len() <= u64::MAX,
        ({
            let range = rescue_range(s, param, 0);
            let fresh = stats_at_start(s, param, None);
            let start = rescue_start(s, range.seek_to, fresh, Seq::empty());
            let st = rescue_steps(s, start, range.required_len as int, param_picks(param), k);
            !st.done && st.bytes_processed <= range.required_len
        }),
    ensures
        ({
            let range = rescue_range(s, param, 0);
            let fresh = stats_at_start(s, param, None);
            let start = rescue_start(s, range.seek_to, fresh, Seq::empty());
            let st = rescue_steps(s, start, range.required_len as int, param_picks(param), k);
            let text = stats_between(st, range.required_len).log_of();
            let restored = stats_at_start(s, param, Some(text + tail));
            let again = rescue_range(s, param, restored.bytes_processed);
            &&& again.required_len == range.required_len
            &&& rescue_start(s, again.seek_to, restored, st.picked) == st
            &&& rescue_run(
                s,
                rescue_start(s, again.seek_to, restored, st.picked),
                again.required_len as int,
                param_picks(param),
            ) == rescue_run(s, start, range.required_len as int, param_picks(param))
        }),
{
    let picks = param_picks(param);
    let range = rescue_range(s, param, 0);
    let total = range.required_len;
    let zero = Stats {
        meta_or_par_blocks_processed: 0,
        data_or_par_blocks_processed: 0,
        bytes_processed: 0,
        total_bytes: total,
    };
    lemma_stats_at_start(s, param, zero, tail);
    lemma_rescue_range_start(s, param);
    let start = rescue_start(s, range.seek_to, zero, Seq::empty());
    assert(between_steps(s, start, start.pos));
    lemma_steps_between(s, start, total as int, picks, start.pos, k);
    lemma_rescue_resumable(s, start, total as int, picks, k);
    let st = rescue_steps(s, start, total as int, picks, k);
    let at_stop = stats_between(st, total);
    lemma_taken_up(s, st, start.pos, st.pos as u64, total);
    lemma_stats_at_start(s, param, at_stop, tail);
    lemma_rescue_range_moves(s, param, at_stop.bytes_processed);
}

} // verus!
