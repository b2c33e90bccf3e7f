//! Check: every block of a container is read, and counted as a metadata
//! block, a data block, a blank or a failure. The data that the hash of the
//! stored file is taken from can be read out as well, to be held against the
//! hash on record.

use vstd::prelude::*;
use crate::block_utils::RefBlockChoice;
use crate::block_utils::data_par_burst_of;
use crate::block_utils::get_data_par_burst;
use crate::block_utils::get_ref_block;
use crate::block_utils::ref_block_pos;
use crate::misc_utils::PositionOrLength;
use crate::misc_utils::RequiredLenAndSeekTo;
use crate::misc_utils::calc_required_len_and_seek_to_from_byte_range;
use crate::misc_utils::required_len_and_seek_to;
use crate::buffer::buffer_is_blank;
use crate::buffer::repeated;
use crate::container::layout_valid;
use crate::decode_core::decode;
use crate::decode_core::decode_result;
use crate::general_error::Error;
use crate::general_error::ErrorKind;
use crate::misc_utils::RangeEnd;
use crate::multihash::HashBytes;
use crate::progress_report::PRVerbosityLevel;
use crate::sbx_block::Block;
use crate::sbx_block::BlockType;
use crate::sbx_block::DataView;
use crate::sbx_block::MetadataID;
use crate::sbx_block::metadata::MetadataView;
use crate::sbx_block::metadata::first_with_id;
use crate::sbx_block::parse_block;
use crate::sbx_specs::Version;
use crate::sbx_specs::block_size;
use crate::sbx_specs::ver_to_block_size;

verus! {

/// Whether the blocks are checked, the stored file is hashed, or both.
#[derive(Clone, Copy, Debug, PartialEq, Eq, Structural)]
pub enum HashAction {
    NoHash,
    HashAfterCheck,
    HashOnly,
}

/// What a check is asked to do: where to look, how much to report, and
/// whether the stored file is to be hashed.
#[derive(Debug)]
pub struct Param {
    pub ref_block_choice: RefBlockChoice,
    pub ref_block_from_pos: Option<u64>,
    pub ref_block_to_pos: Option<RangeEnd<u64>>,
    pub guess_burst_from_pos: Option<u64>,
    pub report_blank: bool,
    pub from_pos: Option<u64>,
    pub to_pos: Option<RangeEnd<u64>>,
    pub force_misalign: bool,
    pub hash_action: HashAction,
    pub burst: Option<usize>,
    pub in_file: String,
    pub verbose: bool,
    pub pr_verbosity_level: PRVerbosityLevel,
}

impl Param {
    /// Gathers the settings of a check.
    pub fn new(
        ref_block_choice: RefBlockChoice,
        ref_block_from_pos: Option<u64>,
        ref_block_to_pos: Option<RangeEnd<u64>>,
        guess_burst_from_pos: Option<u64>,
        report_blank: bool,
        from_pos: Option<u64>,
        to_pos: Option<RangeEnd<u64>>,
        force_misalign: bool,
        hash_action: HashAction,
        burst: Option<usize>,
        in_file: &str,
        verbose: bool,
        pr_verbosity_level: PRVerbosityLevel,
    ) -> (r: Param)
        ensures
            r.ref_block_choice == ref_block_choice,
            r.ref_block_from_pos == ref_block_from_pos,
            r.ref_block_to_pos == ref_block_to_pos,
            r.guess_burst_from_pos == guess_burst_from_pos,
            r.report_blank == report_blank,
            r.from_pos == from_pos,
            r.to_pos == to_pos,
            r.force_misalign == force_misalign,
            r.hash_action == hash_action,
            r.burst == burst,
            r.in_file@ == in_file@,
            r.verbose == verbose,
            r.pr_verbosity_level == pr_verbosity_level,
    {
        Param {
            ref_block_choice,
            ref_block_from_pos,
            ref_block_to_pos,
            guess_burst_from_pos,
            report_blank,
            from_pos,
            to_pos,
            force_misalign,
            hash_action,
            burst,
            in_file: in_file.to_owned(),
            verbose,
            pr_verbosity_level,
        }
    }
}

/// Counts of the blocks that a check has seen, by what became of each.
#[derive(Clone, Copy, Debug, PartialEq, Eq, Structural)]
pub struct Stats {
    pub version: Version,
    pub block_size: u64,
    pub meta_or_par_blocks_decoded: u64,
    pub data_or_par_blocks_decoded: u64,
    pub blocks_decode_failed: u64,
    pub okay_blank_blocks: u64,
    pub total_blocks: u64,
}

impl Stats {
    /// Counts at the start of a check of `required_len` bytes, all zero, with
    /// the version and block size of the reference block.
    pub fn new(ref_block: &Block, required_len: u64) -> (r: Stats)
        ensures
            r == (Stats {
                version: ref_block@.header.version,
                block_size: block_size(ref_block@.header.version) as u64,
                meta_or_par_blocks_decoded: 0,
                data_or_par_blocks_decoded: 0,
                blocks_decode_failed: 0,
                okay_blank_blocks: 0,
                total_blocks: blocks_in(required_len as int, block_size(ref_block@.header.version))
                    as u64,
            }),
    {
        let version: Version = ref_block.get_version();
        let block_size: u64 = ver_to_block_size(version) as u64;
        let whole: u64 = required_len / block_size;
        let total_blocks: u64 = if required_len % block_size == 0 {
            whole
        } else {
            proof {
                vstd::arithmetic::div_mod::lemma_fundamental_div_mod(
                    required_len as int,
                    block_size as int,
                );
                assert(whole < required_len) by (nonlinear_arith)
                    requires
                        required_len == block_size * whole + required_len % block_size,
                        required_len % block_size >= 1,
                        block_size >= 1,
                        whole >= 0,
                ;
            }
            whole + 1
        };
        Stats {
            version,
            block_size,
            meta_or_par_blocks_decoded: 0,
            data_or_par_blocks_decoded: 0,
            blocks_decode_failed: 0,
            okay_blank_blocks: 0,
            total_blocks,
        }
    }

    /// Number of blocks that were looked at so far.
    pub fn blocks_so_far(&self) -> (r: u64)
        requires
            self.meta_or_par_blocks_decoded + self.data_or_par_blocks_decoded
                + self.blocks_decode_failed + self.okay_blank_blocks <= u64::MAX,
        ensures
            r == self.meta_or_par_blocks_decoded + self.data_or_par_blocks_decoded
                + self.blocks_decode_failed + self.okay_blank_blocks,
    {
        self.meta_or_par_blocks_decoded + self.data_or_par_blocks_decoded
            + self.blocks_decode_failed + self.okay_blank_blocks
    }
}

/// Number of blocks of `size` bytes that it takes to hold `len` bytes.
pub open spec fn blocks_in(len: int, size: int) -> int {
    if len % size == 0 {
        len / size
    } else {
        len / size + 1
    }
}

/// What the check finds in one slot.
#[derive(Clone, Copy, Debug, PartialEq, Eq, Structural)]
pub enum BlockStatus {
    Meta,
    Data,
    Failed,
    Blank,
}

/// What the check finds in the bytes of one slot: a block of the container,
/// which parses and has the version and file UID of the reference block, by
/// its kind; a blank, where the bytes are zeros throughout and blanks are
/// not reported; and a failure otherwise.
pub open spec fn window_status(w: Seq<u8>, version: Version, uid: Seq<u8>, report_blank: bool) -> BlockStatus {
    match parse_block(w) {
        Ok(b) if b.header.version == version && b.header.uid == uid => {
            if b.data is Meta {
                BlockStatus::Meta
            } else {
                BlockStatus::Data
            }
        },
        _ => if w == repeated(0, w.len()) && !report_blank {
            BlockStatus::Blank
        } else {
            BlockStatus::Failed
        },
    }
}

/// The check's `i`-th slot of a container that is checked from `seek_to` on.
pub open spec fn check_window(c: Seq<u8>, seek_to: int, size: int, i: int) -> Seq<u8> {
    c.subrange(seek_to + i * size, seek_to + (i + 1) * size)
}

/// Number of slots that are checked: as many as it takes to hold the length
/// asked for, but only those that lie whole in the container.
pub open spec fn check_window_count(len: int, seek_to: int, required_len: int, size: int) -> int {
    let wanted = blocks_in(required_len, size);
    let there = if seek_to <= len {
        (len - seek_to) / size
    } else {
        0
    };
    if wanted < there {
        wanted
    } else {
        there
    }
}

/// Number of slots among the first `k` in which the check finds `status`.
pub open spec fn count_status(
    c: Seq<u8>,
    seek_to: int,
    version: Version,
    uid: Seq<u8>,
    report_blank: bool,
    k: int,
    status: BlockStatus,
) -> int
    decreases k,
{
    if k <= 0 {
        0
    } else {
        count_status(c, seek_to, version, uid, report_blank, k - 1, status) + (if window_status(
            check_window(c, seek_to, block_size(version), k - 1),
            version,
            uid,
            report_blank,
        ) == status {
            1int
        } else {
            0int
        })
    }
}

/// No status is found in more slots than were looked at.
pub proof fn lemma_count_status_bound(
    c: Seq<u8>,
    seek_to: int,
    version: Version,
    uid: Seq<u8>,
    report_blank: bool,
    k: int,
    status: BlockStatus,
)
    requires
        k >= 0,
    ensures
        0 <= count_status(c, seek_to, version, uid, report_blank, k, status) <= k,
    decreases k,
{
    if k > 0 {
        lemma_count_status_bound(c, seek_to, version, uid, report_blank, k - 1, status);
    }
}

/// What a check of the blocks of a container counts: each slot from
/// `seek_to` on, for the length asked for, under what is found in it.
pub open spec fn check_stats(
    c: Seq<u8>,
    version: Version,
    uid: Seq<u8>,
    seek_to: int,
    required_len: int,
    report_blank: bool,
) -> Stats {
    let n = check_window_count(c.len() as int, seek_to, required_len, block_size(version));
    Stats {
        version,
        block_size: block_size(version) as u64,
        meta_or_par_blocks_decoded: count_status(
            c,
            seek_to,
            version,
            uid,
            report_blank,
            n,
            BlockStatus::Meta,
        ) as u64,
        data_or_par_blocks_decoded: count_status(
            c,
            seek_to,
            version,
            uid,
            report_blank,
            n,
            BlockStatus::Data,
        ) as u64,
        blocks_decode_failed: count_status(
            c,
            seek_to,
            version,
            uid,
            report_blank,
            n,
            BlockStatus::Failed,
        ) as u64,
        okay_blank_blocks: count_status(
            c,
            seek_to,
            version,
            uid,
            report_blank,
            n,
            BlockStatus::Blank,
        ) as u64,
        total_blocks: blocks_in(required_len, block_size(version)) as u64,
    }
}

/// Checks the blocks of a container from `seek_to` on, for the length asked
/// for: each slot is counted under what is found in it.
pub fn check_blocks(
    container: &[u8],
    ref_block: &Block,
    seek_to: u64,
    required_len: u64,
    report_blank: bool,
) -> (r: Stats)
    requires
        ref_block.wf(),
    ensures
        r == check_stats(
            container@,
            ref_block@.header.version,
            ref_block@.header.uid,
            seek_to as int,
            required_len as int,
            report_blank,
        ),
{
    let version: Version = ref_block.get_version();
    let size: usize = ver_to_block_size(version);
    let len: usize = container.len();
    let mut stats: Stats = Stats::new(ref_block, required_len);
    let mut block: Block = Block::dummy();
    let there: usize = if seek_to <= len as u64 {
        (len - seek_to as usize) / size
    } else {
        0
    };
    let count: u64 = if stats.total_blocks < there as u64 {
        stats.total_blocks
    } else {
        there as u64
    };
    let ghost uid = ref_block@.header.uid;
    let ghost c = container@;
    let mut i: u64 = 0;
    while i < count
        invariant
            i <= count,
            count <= there,
            ref_block.wf(),
            version == ref_block@.header.version,
            uid == ref_block@.header.uid,
            c == container@,
            size == block_size(version),
            len == container@.len(),
            there > 0 ==> seek_to <= len && there == (len - seek_to) / (size as int),
            stats.version == version,
            stats.block_size == block_size(version),
            stats.total_blocks == blocks_in(required_len as int, block_size(version)),
            stats.meta_or_par_blocks_decoded == count_status(
                c,
                seek_to as int,
                version,
                uid,
                report_blank,
                i as int,
                BlockStatus::Meta,
            ),
            stats.data_or_par_blocks_decoded == count_status(
                c,
                seek_to as int,
                version,
                uid,
                report_blank,
                i as int,
                BlockStatus::Data,
            ),
            stats.blocks_decode_failed == count_status(
                c,
                seek_to as int,
                version,
                uid,
                report_blank,
                i as int,
                BlockStatus::Failed,
            ),
            stats.okay_blank_blocks == count_status(
                c,
                seek_to as int,
                version,
                uid,
                report_blank,
                i as int,
                BlockStatus::Blank,
            ),
        decreases count - i,
    {
        proof {
            lemma_count_status_bound(
                c,
                seek_to as int,
                version,
                uid,
                report_blank,
                i as int,
                BlockStatus::Meta,
            );
            lemma_count_status_bound(
                c,
                seek_to as int,
                version,
                uid,
                report_blank,
                i as int,
                BlockStatus::Data,
            );
            lemma_count_status_bound(
                c,
                seek_to as int,
                version,
                uid,
                report_blank,
                i as int,
                BlockStatus::Failed,
            );
            lemma_count_status_bound(
                c,
                seek_to as int,
                version,
                uid,
                report_blank,
                i as int,
                BlockStatus::Blank,
            );
            let room = len - seek_to;
            let t = there as int;
            vstd::arithmetic::div_mod::lemma_fundamental_div_mod(room, size as int);
            assert(0 <= i * size && (i + 1) * size <= room && (i + 1) * size == i * size + size)
                by (nonlinear_arith)
                requires
                    0 <= i < t,
                    room == size * t + room % (size as int),
                    room % (size as int) >= 0,
                    size >= 1,
            ;
        }
        let from: usize = seek_to as usize + i as usize * size;
        let window: &[u8] = &container[from..from + size];
        assert(window@ == check_window(c, seek_to as int, size as int, i as int));
        let pred = |b: &Block| -> (r: bool)
            requires
                b.wf(),
            ensures
                r == (b@.header.version == version && b@.header.uid == uid),
            { b.same_ver_uid(ref_block) };
        let found: Option<BlockType> = match block.sync_from_buffer_checked(window) {
            Ok(()) => {
                if pred(&block) {
                    Some(block.block_type())
                } else {
                    None
                }
            },
            Err(_) => None,
        };
        match found {
            Some(BlockType::Meta) => {
                stats.meta_or_par_blocks_decoded += 1;
            },
            Some(BlockType::Data) => {
                stats.data_or_par_blocks_decoded += 1;
            },
            None => {
                if buffer_is_blank(window) && !report_blank {
                    stats.okay_blank_blocks += 1;
                } else {
                    stats.blocks_decode_failed += 1;
                }
            },
        }
        i += 1;
    }
    stats
}

/// The data that the hash of the stored file is taken from, and the hash on
/// record to hold it against.
#[derive(Debug)]
pub struct HashInput {
    pub recorded_hash: HashBytes,
    pub data: Vec<u8>,
}

/// Why the stored file cannot be hashed, if that is so: the reference block
/// must be a metadata block with a file size and a hash.
pub open spec fn hash_precondition_error(records: Option<Seq<MetadataView>>) -> Option<ErrorKind> {
    match records {
        None => Some(ErrorKind::ReferenceNotMeta),
        Some(ms) => if first_with_id(ms, MetadataID::FSZ) is None {
            Some(ErrorKind::MissingFileSize)
        } else if first_with_id(ms, MetadataID::HSH) is None {
            Some(ErrorKind::MissingHash)
        } else {
            None
        },
    }
}

/// The records of a block, if it is a metadata block.
pub open spec fn records_of(data: DataView) -> Option<Seq<MetadataView>> {
    match data {
        DataView::Meta(ms) => Some(ms),
        DataView::Data => None,
    }
}

/// The data that the hash of the stored file is taken from, or why there is
/// none: the reference block must be a metadata block with a file size and a
/// hash, and the file must decode.
pub open spec fn hash_input_result(
    c: Seq<u8>,
    ref_block: crate::sbx_block::BlockView,
    data_par_burst: Option<(usize, usize, usize)>,
) -> Result<Seq<u8>, ErrorKind> {
    match hash_precondition_error(records_of(ref_block.data)) {
        Some(kind) => Err(kind),
        None => decode_result(
            c,
            ref_block.header.version,
            ref_block.header.uid,
            data_par_burst,
            crate::decode_core::recorded_file_size(ref_block)->0 as int,
        ),
    }
}

/// Reads out the data that the hash of the stored file is taken from: the
/// file as the decoder reads it, with the hash that the reference block has
/// on record.
pub fn hash(
    container: &[u8],
    ref_block: &Block,
    data_par_burst: Option<(usize, usize, usize)>,
) -> (r: Result<HashInput, Error>)
    requires
        ref_block.wf(),
        layout_valid(ref_block@.header.version, data_par_burst),
    ensures
        match r {
            Ok(input) => {
                let ms = ref_block@.data->Meta_0;
                &&& hash_input_result(container@, ref_block@, data_par_burst) == Ok::<
                    Seq<u8>,
                    ErrorKind,
                >(input.data@)
                &&& ms[first_with_id(ms, MetadataID::HSH)->0] == MetadataView::HSH(
                    input.recorded_hash.0,
                    input.recorded_hash.1@,
                )
            },
            Err(e) => hash_input_result(container@, ref_block@, data_par_burst) == Err::<
                Seq<u8>,
                ErrorKind,
            >(e.kind),
        },
{
    if ref_block.is_data() {
        return Err(Error::new(ErrorKind::ReferenceNotMeta));
    }
    let file_size: u64 = match ref_block.get_FSZ() {
        Ok(Some(x)) => x,
        _ => {
            return Err(Error::new(ErrorKind::MissingFileSize));
        },
    };
    let recorded_hash: HashBytes = match ref_block.get_HSH() {
        Ok(Some(x)) => x,
        _ => {
            return Err(Error::new(ErrorKind::MissingHash));
        },
    };
    let uid: [u8; 6] = ref_block.get_uid();
    match decode(container, ref_block.get_version(), &uid, data_par_burst, file_size) {
        Ok((data, _)) => Ok(HashInput { recorded_hash, data }),
        Err(e) => Err(e),
    }
}

/// What a check brings to light: the counts of the blocks, where the blocks
/// were checked, and the data to hash, where hashing was asked for.
#[derive(Debug)]
pub struct Checked {
    pub stats: Option<Stats>,
    pub hash_input: Option<HashInput>,
}

/// What a check of a container brings to light, or why it fails: there
/// must be a reference block; the blocks are counted unless only the hash is
/// asked for; the data to hash is read out unless no hash is asked for, and
/// for that the Reed-Solomon parameters must be found and the file decode.
pub open spec fn check_file_result(c: Seq<u8>, param: Param) -> Result<
    (Option<Stats>, Option<Seq<u8>>),
    ErrorKind,
> {
    match ref_block_pos(c, param.ref_block_choice) {
        None => Err(ErrorKind::NoReferenceBlock),
        Some(pos) => {
            let ref_block = parse_block(c.skip(pos))->Ok_0;
            let range = required_len_and_seek_to(
                param.from_pos,
                param.to_pos,
                param.force_misalign,
                0,
                PositionOrLength::Len(c.len() as u64),
                Some(block_size(ref_block.header.version) as u64),
            );
            let stats = if param.hash_action != HashAction::HashOnly {
                Some(
                    check_stats(
                        c,
                        ref_block.header.version,
                        ref_block.header.uid,
                        range.seek_to as int,
                        range.required_len as int,
                        param.report_blank,
                    ),
                )
            } else {
                None
            };
            if param.hash_action == HashAction::NoHash {
                Ok((stats, None))
            } else {
                match data_par_burst_of(c, ref_block, param.burst) {
                    Err(kind) => Err(kind),
                    Ok(data_par_burst) => if data_par_burst matches Some((m, n, b)) && b
                        > crate::container::MAX_BURST {
                        Err(ErrorKind::BurstTooLarge)
                    } else {
                        match hash_input_result(c, ref_block, data_par_burst) {
                            Err(kind) => Err(kind),
                            Ok(data) => Ok((stats, Some(data))),
                        }
                    },
                }
            }
        },
    }
}

/// Checks a container as the parameters ask: the blocks within the range
/// given are counted unless only the hash is asked for, and the data to hash
/// is read out unless no hash is asked for.
pub fn check_file(container: &[u8], param: &Param) -> (r: Result<Checked, Error>)
    ensures
        match r {
            Ok(checked) => check_file_result(container@, *param) == Ok::<
                (Option<Stats>, Option<Seq<u8>>),
                ErrorKind,
            >(
                (
                    checked.stats,
                    match checked.hash_input {
                        Some(input) => Some(input.data@),
                        None => None,
                    },
                ),
            ),
            Err(e) => check_file_result(container@, *param) == Err::<
                (Option<Stats>, Option<Seq<u8>>),
                ErrorKind,
            >(e.kind),
        },
{
    let (ref_block_pos, ref_block) = match get_ref_block(container, param.ref_block_choice) {
        Some(x) => x,
        None => {
            return Err(Error::new(ErrorKind::NoReferenceBlock));
        },
    };
    let range: RequiredLenAndSeekTo = calc_required_len_and_seek_to_from_byte_range(
        param.from_pos,
        param.to_pos,
        param.force_misalign,
        0,
        PositionOrLength::Len(container.len() as u64),
        Some(ver_to_block_size(ref_block.get_version()) as u64),
    );
    let do_check: bool = match param.hash_action {
        HashAction::HashOnly => false,
        _ => true,
    };
    let do_hash: bool = match param.hash_action {
        HashAction::NoHash => false,
        _ => true,
    };
    let stats: Option<Stats> = if do_check {
        Some(
            check_blocks(
                container,
                &ref_block,
                range.seek_to,
                range.required_len,
                param.report_blank,
            ),
        )
    } else {
        None
    };
    let hash_input: Option<HashInput> = if do_hash {
        let data_par_burst: Option<(usize, usize, usize)> = match get_data_par_burst(
            container,
            &ref_block,
            param.burst,
        ) {
            Ok(x) => x,
            Err(e) => {
                return Err(e);
            },
        };
        match data_par_burst {
            Some((_, _, b)) => {
                if b > crate::container::MAX_BURST {
                    return Err(Error::new(ErrorKind::BurstTooLarge));
                }
            },
            None => {},
        }
        match hash(container, &ref_block, data_par_burst) {
            Ok(x) => Some(x),
            Err(e) => {
                return Err(e);
            },
        }
    } else {
        None
    };
    Ok(Checked { stats, hash_input })
}

} // verus!
