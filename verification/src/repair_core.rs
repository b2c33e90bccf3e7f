//! Repair: blocks of a container that cannot be read are written anew. A
//! metadata block is replaced by the reference block. A data or parity shard
//! is computed from the other shards of its stripe, which Reed-Solomon
//! allows as long as no more shards are missing than the stripe has parity
//! shards. The container keeps its length: only slots that lie within it
//! are written.
//!
//! The last stripe of a container may be incomplete. Its blocks are read and
//! counted, but it has no parity and none of them can be repaired.

use vstd::prelude::*;
use crate::block_utils::RefBlockChoice;
use crate::block_utils::container_params;
use crate::block_utils::find_container_params;
use crate::buffer::copy_into;
use crate::sbx_block::BlockType;
use crate::buffer::copy_range_to_vec;
use crate::container::calc_write_index;
use crate::container::layout_valid;
use crate::container::block_bytes;
use crate::container::make_block_bytes;
use crate::container::slot_in_bounds;
use crate::container::slot_of;
use crate::container::write_index;
use crate::decode_core::data_block_ok;
use crate::decode_core::find_data_block;
use crate::encode_core::make_codec;
use crate::general_error::Error;
use crate::general_error::ErrorKind;
use crate::progress_report::PRVerbosityLevel;
use crate::rs_codec::RSCodec;
use crate::rs_codec::option_shards_view;
use crate::rs_codec::present_count;
use crate::rs_codec::present_shards_have_len;
use crate::rs_codec::present_shards_alike;
use crate::rs_codec::rs_codec_reconstruct;
use crate::rs_codec::rs_data_shards;
use crate::rs_codec::rs_parity_shards;
use crate::rs_codec::rs_reconstructed;
use crate::sbx_block::Block;
use crate::sbx_block::parse_block;
use crate::sbx_block::position::meta_all_write_pos_s;
use crate::sbx_block::position::calc_meta_block_all_write_pos_s;
use crate::sbx_block::position_list::PositionList;
use crate::sbx_specs::Version;
use crate::sbx_specs::SBX_HEADER_SIZE;
use crate::sbx_specs::block_size;
use crate::sbx_specs::data_size;
use crate::sbx_specs::ver_to_block_size;
use crate::sbx_specs::ver_to_data_size;

verus! {

/// Counts of the blocks that a repair has seen and of what it did to them.
#[derive(Clone, Copy, Debug, PartialEq, Eq, Structural)]
pub struct Stats {
    pub version: Version,
    pub block_size: u64,
    pub meta_blocks_decoded: u64,
    pub data_or_par_blocks_decoded: u64,
    pub blocks_decode_failed: u64,
    pub meta_blocks_repaired: u64,
    pub data_or_par_blocks_repaired: u64,
    pub data_or_par_blocks_repair_failed: u64,
    pub total_blocks: u64,
}

/// The counts of a repair as numbers without bound.
pub struct Counts {
    pub meta_blocks_decoded: int,
    pub data_or_par_blocks_decoded: int,
    pub blocks_decode_failed: int,
    pub meta_blocks_repaired: int,
    pub data_or_par_blocks_repaired: int,
    pub data_or_par_blocks_repair_failed: int,
}

impl Stats {
    /// Counts at the start of a repair of `total_blocks` blocks, all zero, with
    /// the version and block size of the reference block.
    pub fn new(ref_block: &Block, total_blocks: u64) -> (r: Stats)
        ensures
            r == (Stats {
                version: ref_block@.header.version,
                block_size: block_size(ref_block@.header.version) as u64,
                meta_blocks_decoded: 0,
                data_or_par_blocks_decoded: 0,
                blocks_decode_failed: 0,
                meta_blocks_repaired: 0,
                data_or_par_blocks_repaired: 0,
                data_or_par_blocks_repair_failed: 0,
                total_blocks,
            }),
    {
        let version: Version = ref_block.get_version();
        Stats {
            version,
            block_size: ver_to_block_size(version) as u64,
            blocks_decode_failed: 0,
            meta_blocks_decoded: 0,
            data_or_par_blocks_decoded: 0,
            meta_blocks_repaired: 0,
            data_or_par_blocks_repaired: 0,
            data_or_par_blocks_repair_failed: 0,
            total_blocks,
        }
    }

    /// Counts of nothing.
    pub open spec fn new_counts() -> Counts {
        Counts {
            meta_blocks_decoded: 0,
            data_or_par_blocks_decoded: 0,
            blocks_decode_failed: 0,
            meta_blocks_repaired: 0,
            data_or_par_blocks_repaired: 0,
            data_or_par_blocks_repair_failed: 0,
        }
    }

    /// The counts as numbers without bound.
    pub open spec fn counts(self) -> Counts {
        Counts {
            meta_blocks_decoded: self.meta_blocks_decoded as int,
            data_or_par_blocks_decoded: self.data_or_par_blocks_decoded as int,
            blocks_decode_failed: self.blocks_decode_failed as int,
            meta_blocks_repaired: self.meta_blocks_repaired as int,
            data_or_par_blocks_repaired: self.data_or_par_blocks_repaired as int,
            data_or_par_blocks_repair_failed: self.data_or_par_blocks_repair_failed as int,
        }
    }

    /// Number of blocks that were looked at so far.
    pub fn blocks_so_far(&self) -> (r: u64)
        requires
            self.meta_blocks_decoded + self.data_or_par_blocks_decoded + self.blocks_decode_failed
                <= u64::MAX,
        ensures
            r == self.meta_blocks_decoded + self.data_or_par_blocks_decoded
                + self.blocks_decode_failed,
    {
        self.meta_blocks_decoded + self.data_or_par_blocks_decoded + self.blocks_decode_failed
    }
}

/// What a repair is asked to do.
#[derive(Debug)]
pub struct Param {
    pub in_file: String,
    pub dry_run: bool,
    pub verbose: bool,
    pub pr_verbosity_level: PRVerbosityLevel,
    pub burst: Option<usize>,
}

impl Param {
    /// Gathers the settings of a repair.
    pub fn new(
        in_file: &str,
        dry_run: bool,
        verbose: bool,
        pr_verbosity_level: PRVerbosityLevel,
        burst: Option<usize>,
    ) -> (r: Param)
        ensures
            r.in_file@ == in_file@,
            r.dry_run == dry_run,
            r.verbose == verbose,
            r.pr_verbosity_level == pr_verbosity_level,
            r.burst == burst,
    {
        Param { in_file: in_file.to_owned(), dry_run, verbose, pr_verbosity_level, burst }
    }
}

/// What a repair works with.
pub struct RepairSpec {
    pub version: Version,
    pub uid: Seq<u8>,
    pub data_shards: usize,
    pub parity_shards: usize,
    pub burst: usize,
    pub dry_run: bool,
}

impl RepairSpec {
    /// The shard counts and burst resistance level, as the layout functions take them.
    pub open spec fn data_par_burst(self) -> Option<(usize, usize, usize)> {
        Some((self.data_shards, self.parity_shards, self.burst))
    }

    /// Number of shards in a stripe, data and parity together.
    pub open spec fn total_shards(self) -> int {
        self.data_shards + self.parity_shards
    }
}

/// Sequence number of shard `i` of stripe `k`.
pub open spec fn shard_seq_num(spec: RepairSpec, k: int, i: int) -> int {
    k * spec.total_shards() + i + 1
}

/// The container with the slot at `index` replaced.
pub open spec fn with_slot(c: Seq<u8>, index: int, version: Version, bytes: Seq<u8>) -> Seq<u8> {
    c.subrange(0, index * block_size(version)) + bytes + c.skip(
        (index + 1) * block_size(version),
    )
}

/// Whether slot `index` lies whole within the container.
pub open spec fn slot_within(c: Seq<u8>, index: int, version: Version) -> bool {
    0 <= index && (index + 1) * block_size(version) <= c.len()
}

/// The shards of stripe `k` as they are found in the container: the payload
/// of each block that can be used, and nothing for the others.
pub open spec fn stripe_shards(c: Seq<u8>, spec: RepairSpec, k: int) -> Seq<Option<Seq<u8>>> {
    Seq::new(
        spec.total_shards() as nat,
        |i: int|
            if data_block_ok(
                c,
                spec.version,
                spec.uid,
                spec.data_par_burst(),
                shard_seq_num(spec, k, i),
            ) {
                Some(
                    slot_of(
                        c,
                        write_index(shard_seq_num(spec, k, i), spec.data_par_burst()),
                        spec.version,
                    ).subrange(16, block_size(spec.version)),
                )
            } else {
                None
            },
    )
}

/// Whether the stripe can be mended: it has as many shards as data shards.
pub open spec fn stripe_repairable(shards: Seq<Option<Seq<u8>>>, spec: RepairSpec) -> bool {
    present_count(shards) >= spec.data_shards
}

/// Whether shard `i` of stripe `k` is written anew: it is missing, the
/// stripe can be mended, and the slot of the shard lies within the container.
pub open spec fn shard_rewritten(
    c: Seq<u8>,
    spec: RepairSpec,
    shards: Seq<Option<Seq<u8>>>,
    k: int,
    i: int,
) -> bool {
    &&& shards[i] is None
    &&& stripe_repairable(shards, spec)
    &&& slot_within(
        c,
        write_index(shard_seq_num(spec, k, i), spec.data_par_burst()),
        spec.version,
    )
}

/// The container after the first `i` shards of stripe `k` have been seen to,
/// where `shards` is what was found of the stripe before: each shard that is
/// written anew gets the block with the payload that Reed-Solomon computes.
pub open spec fn stripe_written(
    c: Seq<u8>,
    spec: RepairSpec,
    shards: Seq<Option<Seq<u8>>>,
    k: int,
    i: int,
) -> Seq<u8>
    decreases i,
{
    if i <= 0 {
        c
    } else {
        let before = stripe_written(c, spec, shards, k, i - 1);
        if shard_rewritten(c, spec, shards, k, i - 1) && !spec.dry_run {
            with_slot(
                before,
                write_index(shard_seq_num(spec, k, i - 1), spec.data_par_burst()),
                spec.version,
                block_bytes(
                    spec.version,
                    spec.uid,
                    shard_seq_num(spec, k, i - 1) as u32,
                    rs_reconstructed(
                        spec.data_shards as nat,
                        spec.parity_shards as nat,
                        shards,
                    )[i - 1],
                ),
            )
        } else {
            before
        }
    }
}

/// Number of shards among the first `i` of stripe `k` that are written anew.
pub open spec fn rewritten_count(
    c: Seq<u8>,
    spec: RepairSpec,
    shards: Seq<Option<Seq<u8>>>,
    k: int,
    i: int,
) -> int
    decreases i,
{
    if i <= 0 {
        0
    } else {
        rewritten_count(c, spec, shards, k, i - 1) + (if shard_rewritten(
            c,
            spec,
            shards,
            k,
            i - 1,
        ) {
            1int
        } else {
            0int
        })
    }
}

/// The container after stripe `k` has been mended.
pub open spec fn stripe_repaired(c: Seq<u8>, spec: RepairSpec, k: int) -> Seq<u8> {
    stripe_written(c, spec, stripe_shards(c, spec, k), k, spec.total_shards())
}

/// The counts with what stripe `k` adds to them: each shard is counted as
/// read or as failed; a failed shard is counted as repaired if it is written
/// anew, and as one whose repair failed otherwise.
pub open spec fn stripe_counted(counts: Counts, c: Seq<u8>, spec: RepairSpec, k: int) -> Counts {
    let shards = stripe_shards(c, spec, k);
    let present = present_count(shards) as int;
    let missing = spec.total_shards() - present;
    let rewritten = rewritten_count(c, spec, shards, k, spec.total_shards());
    Counts {
        data_or_par_blocks_decoded: counts.data_or_par_blocks_decoded + present,
        blocks_decode_failed: counts.blocks_decode_failed + missing,
        data_or_par_blocks_repaired: counts.data_or_par_blocks_repaired + rewritten,
        data_or_par_blocks_repair_failed: counts.data_or_par_blocks_repair_failed + (missing
            - rewritten),
        ..counts
    }
}

/// The container after the stripes `0..k` have been mended, one after the other.
pub open spec fn stripes_repaired(c: Seq<u8>, spec: RepairSpec, k: int) -> Seq<u8>
    decreases k,
{
    if k <= 0 {
        c
    } else {
        stripe_repaired(stripes_repaired(c, spec, k - 1), spec, k - 1)
    }
}

/// The counts after the stripes `0..k` have been mended.
pub open spec fn stripes_counted(counts: Counts, c: Seq<u8>, spec: RepairSpec, k: int) -> Counts
    decreases k,
{
    if k <= 0 {
        counts
    } else {
        stripe_counted(
            stripes_counted(counts, c, spec, k - 1),
            stripes_repaired(c, spec, k - 1),
            spec,
            k - 1,
        )
    }
}

/// The counts with the first `i` blocks of the incomplete stripe `k`, which
/// are read and counted and left as they are.
pub open spec fn tail_counted(counts: Counts, c: Seq<u8>, spec: RepairSpec, k: int, i: int) -> Counts
    decreases i,
{
    if i <= 0 {
        counts
    } else {
        let before = tail_counted(counts, c, spec, k, i - 1);
        if data_block_ok(
            c,
            spec.version,
            spec.uid,
            spec.data_par_burst(),
            shard_seq_num(spec, k, i - 1),
        ) {
            Counts {
                data_or_par_blocks_decoded: before.data_or_par_blocks_decoded + 1,
                ..before
            }
        } else {
            Counts { blocks_decode_failed: before.blocks_decode_failed + 1, ..before }
        }
    }
}

/// Whether the block in the slot at byte offset `pos` can stand as a
/// metadata block of the container: the slot lies within the container, the
/// block parses, and it has the version and file UID of the reference block.
pub open spec fn meta_slot_ok(c: Seq<u8>, spec: RepairSpec, pos: int) -> bool {
    &&& pos + block_size(spec.version) <= c.len()
    &&& parse_block(c.subrange(pos, pos + block_size(spec.version))) matches Ok(b)
        && b.header.version == spec.version && b.header.uid == spec.uid
}

/// The container after the metadata blocks at the first `i` positions have
/// been seen to: one that cannot stand is replaced by the reference block,
/// if its slot lies within the container.
pub open spec fn meta_repaired(
    c: Seq<u8>,
    spec: RepairSpec,
    positions: Seq<u64>,
    ref_bytes: Seq<u8>,
    i: int,
) -> Seq<u8>
    decreases i,
{
    if i <= 0 {
        c
    } else {
        let before = meta_repaired(c, spec, positions, ref_bytes, i - 1);
        let pos = positions[i - 1] as int;
        if !meta_slot_ok(before, spec, pos) && pos + block_size(spec.version) <= before.len()
            && !spec.dry_run {
            before.subrange(0, pos) + ref_bytes + before.skip(pos + block_size(spec.version))
        } else {
            before
        }
    }
}

/// The counts after the metadata blocks at the first `i` positions have been
/// seen to.
pub open spec fn meta_counted(
    counts: Counts,
    c: Seq<u8>,
    spec: RepairSpec,
    positions: Seq<u64>,
    ref_bytes: Seq<u8>,
    i: int,
) -> Counts
    decreases i,
{
    if i <= 0 {
        counts
    } else {
        let before = meta_counted(counts, c, spec, positions, ref_bytes, i - 1);
        let at = meta_repaired(c, spec, positions, ref_bytes, i - 1);
        let pos = positions[i - 1] as int;
        if meta_slot_ok(at, spec, pos) {
            Counts { meta_blocks_decoded: before.meta_blocks_decoded + 1, ..before }
        } else if pos + block_size(spec.version) <= at.len() {
            Counts {
                blocks_decode_failed: before.blocks_decode_failed + 1,
                meta_blocks_repaired: before.meta_blocks_repaired + 1,
                ..before
            }
        } else {
            Counts { blocks_decode_failed: before.blocks_decode_failed + 1, ..before }
        }
    }
}

/// Mending leaves the container as long as it was.
pub proof fn lemma_stripe_written_len(
    c: Seq<u8>,
    spec: RepairSpec,
    shards: Seq<Option<Seq<u8>>>,
    k: int,
    i: int,
)
    requires
        spec.data_shards >= 1,
        k >= 0,
        0 <= i <= spec.total_shards(),
        spec.uid.len() == 6,
        rs_reconstructed(spec.data_shards as nat, spec.parity_shards as nat, shards).len()
            == spec.total_shards(),
        forall|x: int|
            0 <= x < spec.total_shards() ==> (#[trigger] rs_reconstructed(
                spec.data_shards as nat,
                spec.parity_shards as nat,
                shards,
            )[x]).len() == data_size(spec.version),
    ensures
        stripe_written(c, spec, shards, k, i).len() == c.len(),
        0 <= rewritten_count(c, spec, shards, k, i) <= i,
    decreases i,
{
    if i > 0 {
        lemma_stripe_written_len(c, spec, shards, k, i - 1);
        if shard_rewritten(c, spec, shards, k, i - 1) && !spec.dry_run {
            let index = write_index(shard_seq_num(spec, k, i - 1), spec.data_par_burst());
            let size = block_size(spec.version);
            let payload = rs_reconstructed(
                spec.data_shards as nat,
                spec.parity_shards as nat,
                shards,
            )[i - 1];
            assert(payload.len() == data_size(spec.version));
            crate::sbx_block::header::lemma_header_round_trip(
                crate::sbx_block::header_with_crc(
                    crate::container::plain_header(
                        spec.version,
                        spec.uid,
                        shard_seq_num(spec, k, i - 1) as u32,
                    ),
                    payload,
                ),
            );
            assert(0 <= index * size && (index + 1) * size == index * size + size)
                by (nonlinear_arith)
                requires
                    index >= 0,
                    size >= 0,
            ;
        }
    }
}

/// Counting the shards that are present one by one.
pub proof fn lemma_present_count_push(shards: Seq<Option<Seq<u8>>>, shard: Option<Seq<u8>>)
    ensures
        present_count(shards.push(shard)) == present_count(shards) + (if shard is Some {
            1nat
        } else {
            0nat
        }),
        present_count(shards) <= shards.len(),
    decreases shards.len(),
{
    assert(shards.push(shard).drop_last() =~= shards);
    if shards.len() > 0 {
        lemma_present_count_push(shards.drop_last(), shards.last());
        assert(shards.drop_last().push(shards.last()) =~= shards);
    }
}

/// Reads the shards of stripe `k`: the payload of each block that can be
/// used, and a flag for each that cannot.
fn read_stripe(
    container: &[u8],
    version: Version,
    uid: &[u8; 6],
    data_par_burst: (usize, usize, usize),
    k: u32,
    Ghost(spec): Ghost<RepairSpec>,
) -> (r: (Vec<Option<Vec<u8>>>, usize))
    requires
        layout_valid(version, Some(data_par_burst)),
        spec.version == version,
        spec.uid == uid@,
        spec.data_par_burst() == Some(data_par_burst),
        (k + 1) * spec.total_shards() <= u32::MAX,
    ensures
        option_shards_view(r.0@) == stripe_shards(container@, spec, k as int),
        r.0@.len() == spec.total_shards(),
        r.1 == present_count(stripe_shards(container@, spec, k as int)),
        r.1 <= spec.total_shards(),
        present_shards_have_len(option_shards_view(r.0@), data_size(version) as nat),
{
    let total: usize = data_par_burst.0 + data_par_burst.1;
    let size: usize = ver_to_block_size(version);
    let len: usize = container.len();
    let mut block: Block = Block::dummy();
    let mut shards: Vec<Option<Vec<u8>>> = Vec::new();
    let mut present: usize = 0;
    proof {
        assert(k * total >= 0 && k * total + total == (k + 1) * total) by (nonlinear_arith)
            requires
                k >= 0,
                total >= 0,
        ;
    }
    let base: u32 = k * total as u32;
    let ghost c = container@;
    let ghost all = stripe_shards(c, spec, k as int);
    let mut i: usize = 0;
    assert(option_shards_view(shards@) =~= all.subrange(0, 0));
    while i < total
        invariant
            i <= total,
            total == spec.total_shards(),
            total <= 256,
            size == block_size(version),
            layout_valid(version, Some(data_par_burst)),
            spec.version == version,
            spec.uid == uid@,
            spec.data_par_burst() == Some(data_par_burst),
            base == k * total,
            base + total <= u32::MAX,
            c == container@,
            len == container@.len(),
            all == stripe_shards(c, spec, k as int),
            shards@.len() == i,
            option_shards_view(shards@) == all.subrange(0, i as int),
            present == present_count(all.subrange(0, i as int)),
            present <= i,
            present_shards_have_len(option_shards_view(shards@), data_size(version) as nat),
        decreases total - i,
    {
        let seq_num: u32 = base + i as u32 + 1;
        let ghost before = shards@;
        let found: Option<usize> = find_data_block(
            container,
            version,
            uid,
            Some(data_par_burst),
            seq_num,
            &mut block,
        );
        let shard: Option<Vec<u8>> = match found {
            Some(pos) => {
                let payload: Vec<u8> = copy_range_to_vec(container, pos + SBX_HEADER_SIZE, pos + size);
                proof {
                    let slot = slot_of(c, write_index(seq_num as int, Some(data_par_burst)), version);
                    assert(payload@ =~= slot.subrange(16, size as int));
                }
                Some(payload)
            },
            None => None,
        };
        if shard.is_some() {
            present += 1;
        }
        shards.push(shard);
        proof {
            assert(seq_num == shard_seq_num(spec, k as int, i as int));
            assert(all.subrange(0, i + 1) =~= all.subrange(0, i as int).push(all[i as int]));
            lemma_present_count_push(all.subrange(0, i as int), all[i as int]);
            assert(option_shards_view(shards@) =~= option_shards_view(before).push(
                all[i as int],
            ));
        }
        i += 1;
    }
    assert(all.subrange(0, total as int) =~= all);
    (shards, present)
}

/// Mends stripe `k`: reads its shards, has the missing ones computed where
/// enough are there, and writes each of them into its slot.
fn repair_stripe(
    container: &mut Vec<u8>,
    codec: &RSCodec,
    version: Version,
    uid: &[u8; 6],
    data_par_burst: (usize, usize, usize),
    k: u32,
    dry_run: bool,
    stats: &mut Stats,
    Ghost(spec): Ghost<RepairSpec>,
)
    requires
        layout_valid(version, Some(data_par_burst)),
        spec.version == version,
        spec.uid == uid@,
        spec.data_par_burst() == Some(data_par_burst),
        spec.dry_run == dry_run,
        rs_data_shards(*codec) == data_par_burst.0,
        rs_parity_shards(*codec) == data_par_burst.1,
        (k + 1) * spec.total_shards() <= u32::MAX,
        old(stats).data_or_par_blocks_decoded <= 0xFFFF_FFFF_FFFF,
        old(stats).blocks_decode_failed <= 0xFFFF_FFFF_FFFF,
        old(stats).data_or_par_blocks_repaired <= 0xFFFF_FFFF_FFFF,
        old(stats).data_or_par_blocks_repair_failed <= 0xFFFF_FFFF_FFFF,
    ensures
        final(container)@ == stripe_repaired(old(container)@, spec, k as int),
        final(container)@.len() == old(container)@.len(),
        final(stats).counts() == stripe_counted(
            old(stats).counts(),
            old(container)@,
            spec,
            k as int,
        ),
        final(stats).version == old(stats).version,
        final(stats).block_size == old(stats).block_size,
        final(stats).total_blocks == old(stats).total_blocks,
        final(stats).data_or_par_blocks_decoded <= old(stats).data_or_par_blocks_decoded + 256,
        final(stats).blocks_decode_failed <= old(stats).blocks_decode_failed + 256,
        final(stats).data_or_par_blocks_repaired <= old(stats).data_or_par_blocks_repaired
            + 256,
        final(stats).data_or_par_blocks_repair_failed <= old(stats).data_or_par_blocks_repair_failed + 256,
{
    let total: usize = data_par_burst.0 + data_par_burst.1;
    let size: usize = ver_to_block_size(version);
    let data_size: usize = ver_to_data_size(version);
    let ghost c = container@;
    let (mut shards, present) = read_stripe(
        container.as_slice(),
        version,
        uid,
        data_par_burst,
        k,
        Ghost(spec),
    );
    let ghost found = option_shards_view(shards@);
    let missing: usize = total - present;
    stats.data_or_par_blocks_decoded += present as u64;
    stats.blocks_decode_failed += missing as u64;
    let mut rewritten: usize = 0;
    if missing > 0 && present >= data_par_burst.0 {
        let mut was_missing: Vec<bool> = Vec::new();
        let mut i: usize = 0;
        while i < total
            invariant
                i <= total,
                total == shards@.len(),
                was_missing@.len() == i,
                forall|x: int| 0 <= x < i ==> #[trigger] was_missing@[x] == (shards@[x] is None),
            decreases total - i,
        {
            was_missing.push(shards[i].is_none());
            i += 1;
        }
        proof {
            assert(present_shards_alike(found));
        }
        let ok: bool = rs_codec_reconstruct(codec, &mut shards);
        let ghost mended = rs_reconstructed(
            data_par_burst.0 as nat,
            data_par_burst.1 as nat,
            found,
        );
        proof {
            lemma_some_present(found);
            let w = choose|w: int| 0 <= w < found.len() && found[w] is Some;
            assert(option_shards_view(shards@)[w] is Some);
            assert(mended[w] == found[w]->0);
            assert forall|x: int| 0 <= x < total implies (#[trigger] mended[x]).len()
                == data_size by {
                assert(option_shards_view(shards@)[x] is Some);
                assert(option_shards_view(shards@)[x]->0.len() == option_shards_view(
                    shards@,
                )[w]->0.len());
            }
            assert forall|x: int| 0 <= x < total implies #[trigger] was_missing@[x] == (found[x]
                is None) by {}
            assert(k * total >= 0 && k * total + total == (k + 1) * total) by (nonlinear_arith)
                requires
                    k >= 0,
                    total >= 0,
            ;
        }
        let base: u32 = k * total as u32;
        let mut i: usize = 0;
        while i < total
            invariant
                i <= total,
                total == spec.total_shards(),
                total <= 256,
                total == shards@.len(),
                size == block_size(version),
                data_size == crate::sbx_specs::data_size(version),
                layout_valid(version, Some(data_par_burst)),
                spec.version == version,
                spec.uid == uid@,
                spec.data_par_burst() == Some(data_par_burst),
                spec.dry_run == dry_run,
                base == k * total,
                base + total <= u32::MAX,
                found == stripe_shards(c, spec, k as int),
                stripe_repairable(found, spec),
                mended == rs_reconstructed(
                    data_par_burst.0 as nat,
                    data_par_burst.1 as nat,
                    found,
                ),
                mended.len() == total,
                forall|x: int| 0 <= x < total ==> (#[trigger] mended[x]).len() == data_size,
                forall|x: int|
                    0 <= x < total ==> (#[trigger] option_shards_view(shards@)[x]) is Some
                        && option_shards_view(shards@)[x]->0 == mended[x],
                was_missing@.len() == total,
                forall|x: int| 0 <= x < total ==> #[trigger] was_missing@[x] == (found[x] is None),
                container@.len() == c.len(),
                container@ == stripe_written(c, spec, found, k as int, i as int),
                rewritten == rewritten_count(c, spec, found, k as int, i as int),
                rewritten <= i,
            decreases total - i,
        {
            let seq_num: u32 = base + i as u32 + 1;
            let index: u64 = calc_write_index(seq_num, Some(data_par_burst));
            let len: usize = container.len();
            proof {
                assert(seq_num == shard_seq_num(spec, k as int, i as int));
                crate::container::lemma_layout_round_trip(seq_num as int, Some(data_par_burst));
            }
            if was_missing[i] && slot_in_bounds(len, index, size) {
                rewritten += 1;
                if !dry_run {
                    let bytes: Vec<u8> = match &shards[i] {
                        Some(payload) => {
                            proof {
                                assert(option_shards_view(shards@)[i as int]->0 == payload@);
                            }
                            make_block_bytes(version, uid, seq_num, payload.as_slice())
                        },
                        None => {
                            proof {
                                assert(option_shards_view(shards@)[i as int] is Some);
                            }
                            Vec::new()
                        },
                    };
                    let pos: usize = index as usize * size;
                    let ghost before = container@;
                    copy_into(container.as_mut_slice(), pos, bytes.as_slice());
                    proof {
                        assert((index + 1) * size == index * size + size) by (nonlinear_arith);
                        assert(container@ =~= with_slot(before, index as int, version, bytes@));
                    }
                }
            }
            i += 1;
        }
    } else {
        proof {
            lemma_nothing_rewritten(c, spec, found, k as int, total as int);
        }
    }
    proof {
        lemma_present_bound(found);
        assert(found.subrange(0, total as int) =~= found);
        lemma_rewritten_bound(c, spec, found, k as int, total as int);
    }
    stats.data_or_par_blocks_repaired += rewritten as u64;
    stats.data_or_par_blocks_repair_failed += (missing - rewritten) as u64;
}

/// Where shards are counted as present, one of them is.
pub proof fn lemma_some_present(shards: Seq<Option<Seq<u8>>>)
    requires
        present_count(shards) >= 1,
    ensures
        exists|w: int| 0 <= w < shards.len() && shards[w] is Some,
    decreases shards.len(),
{
    if shards.len() > 0 {
        if shards.last() is Some {
            assert(shards[shards.len() - 1] is Some);
        } else {
            lemma_some_present(shards.drop_last());
            let w = choose|w: int| 0 <= w < shards.drop_last().len() && shards.drop_last()[w] is Some;
            assert(shards[w] is Some);
        }
    }
}

/// No more shards are present than there are.
pub proof fn lemma_present_bound(shards: Seq<Option<Seq<u8>>>)
    ensures
        present_count(shards) <= shards.len(),
    decreases shards.len(),
{
    if shards.len() > 0 {
        lemma_present_bound(shards.drop_last());
    }
}

/// No more shards are written anew than are missing.
pub proof fn lemma_rewritten_bound(
    c: Seq<u8>,
    spec: RepairSpec,
    shards: Seq<Option<Seq<u8>>>,
    k: int,
    i: int,
)
    requires
        0 <= i <= shards.len(),
    ensures
        0 <= rewritten_count(c, spec, shards, k, i) <= i - present_count(shards.subrange(0, i)),
    decreases i,
{
    if i > 0 {
        lemma_rewritten_bound(c, spec, shards, k, i - 1);
        assert(shards.subrange(0, i).drop_last() =~= shards.subrange(0, i - 1));
        assert(shards.subrange(0, i).last() == shards[i - 1]);
    } else {
        assert(shards.subrange(0, 0) =~= Seq::<Option<Seq<u8>>>::empty());
    }
}

/// Where a stripe has no shard missing or too few shards, nothing is written.
pub proof fn lemma_nothing_rewritten(
    c: Seq<u8>,
    spec: RepairSpec,
    shards: Seq<Option<Seq<u8>>>,
    k: int,
    i: int,
)
    requires
        0 <= i <= shards.len(),
        !stripe_repairable(shards, spec) || present_count(shards) == shards.len(),
    ensures
        stripe_written(c, spec, shards, k, i) == c,
        rewritten_count(c, spec, shards, k, i) == 0,
    decreases i,
{
    if i > 0 {
        lemma_nothing_rewritten(c, spec, shards, k, i - 1);
        if present_count(shards) == shards.len() {
            lemma_all_present(shards, i - 1);
        }
    }
}

/// Where as many shards are present as there are, each of them is.
pub proof fn lemma_all_present(shards: Seq<Option<Seq<u8>>>, i: int)
    requires
        0 <= i < shards.len(),
        present_count(shards) == shards.len(),
    ensures
        shards[i] is Some,
    decreases shards.len(),
{
    lemma_present_bound(shards.drop_last());
    if i < shards.len() - 1 {
        lemma_all_present(shards.drop_last(), i);
    }
}

/// Sees to the metadata blocks: each that cannot stand is replaced by the
/// reference block.
fn repair_meta_blocks(
    container: &mut Vec<u8>,
    ref_block: &Block,
    ref_bytes: &Vec<u8>,
    positions: &Vec<u64>,
    dry_run: bool,
    stats: &mut Stats,
    Ghost(spec): Ghost<RepairSpec>,
)
    requires
        ref_block.wf(),
        spec.version == ref_block@.header.version,
        spec.uid == ref_block@.header.uid,
        spec.dry_run == dry_run,
        ref_bytes@.len() == block_size(spec.version),
        positions@.len() <= 257,
        old(stats).meta_blocks_decoded == 0,
        old(stats).blocks_decode_failed == 0,
        old(stats).meta_blocks_repaired == 0,
    ensures
        final(container)@ == meta_repaired(
            old(container)@,
            spec,
            positions@,
            ref_bytes@,
            positions@.len() as int,
        ),
        final(container)@.len() == old(container)@.len(),
        final(stats).counts() == meta_counted(
            old(stats).counts(),
            old(container)@,
            spec,
            positions@,
            ref_bytes@,
            positions@.len() as int,
        ),
        final(stats).version == old(stats).version,
        final(stats).block_size == old(stats).block_size,
        final(stats).total_blocks == old(stats).total_blocks,
        final(stats).meta_blocks_decoded <= 257,
        final(stats).blocks_decode_failed <= 257,
        final(stats).meta_blocks_repaired <= 257,
        final(stats).data_or_par_blocks_decoded == old(stats).data_or_par_blocks_decoded,
        final(stats).data_or_par_blocks_repaired == old(stats).data_or_par_blocks_repaired,
        final(stats).data_or_par_blocks_repair_failed == old(stats).data_or_par_blocks_repair_failed,
{
    let version: Version = ref_block.get_version();
    let size: usize = ver_to_block_size(version);
    let n: usize = positions.len();
    let ghost c = container@;
    let ghost counts = stats.counts();
    let mut block: Block = Block::dummy();
    let mut i: usize = 0;
    while i < n
        invariant
            i <= n,
            n == positions@.len(),
            n <= 257,
            ref_block.wf(),
            version == spec.version,
            spec.version == ref_block@.header.version,
            spec.uid == ref_block@.header.uid,
            spec.dry_run == dry_run,
            size == block_size(version),
            ref_bytes@.len() == size,
            container@.len() == c.len(),
            container@ == meta_repaired(c, spec, positions@, ref_bytes@, i as int),
            stats.counts() == meta_counted(counts, c, spec, positions@, ref_bytes@, i as int),
            stats.version == old(stats).version,
            stats.block_size == old(stats).block_size,
            stats.total_blocks == old(stats).total_blocks,
            stats.meta_blocks_decoded <= i,
            stats.blocks_decode_failed <= i,
            stats.meta_blocks_repaired <= i,
            stats.data_or_par_blocks_decoded == old(stats).data_or_par_blocks_decoded,
            stats.data_or_par_blocks_repaired == old(stats).data_or_par_blocks_repaired,
            stats.data_or_par_blocks_repair_failed == old(stats).data_or_par_blocks_repair_failed,
        decreases n - i,
    {
        let pos: u64 = positions[i];
        let len: usize = container.len();
        let within: bool = pos <= len as u64 && len - pos as usize >= size;
        let ok: bool = within && {
            let from: usize = pos as usize;
            match block.sync_from_buffer_checked(&container.as_slice()[from..from + size]) {
                Ok(()) => block.same_ver_uid(ref_block),
                Err(_) => false,
            }
        };
        if ok {
            stats.meta_blocks_decoded += 1;
        } else {
            stats.blocks_decode_failed += 1;
            if within {
                stats.meta_blocks_repaired += 1;
                if !dry_run {
                    let ghost before = container@;
                    copy_into(container.as_mut_slice(), pos as usize, ref_bytes.as_slice());
                    assert(container@ =~= before.subrange(0, pos as int) + ref_bytes@
                        + before.skip(pos + size));
                }
            }
        }
        i += 1;
    }
}

/// Why a container cannot be repaired, if that is so: the reference block
/// must be a metadata block whose records fit, and the shard counts and the
/// burst resistance level must go with its version.
pub open spec fn repair_error(ref_block: crate::sbx_block::BlockView, data_par_burst: (usize, usize, usize)) -> Option<
    ErrorKind,
> {
    if ref_block.data is Data {
        Some(ErrorKind::ReferenceNotMeta)
    } else if !crate::encode_core::rs_params_valid(ref_block.header.version, Some(data_par_burst)) {
        Some(ErrorKind::RSCodecCreateFail)
    } else if data_par_burst.2 > crate::container::MAX_BURST {
        Some(ErrorKind::BurstTooLarge)
    } else if ref_block.header.seq_num == 0 && !crate::sbx_block::metadata::records_fit(
        ref_block.data->Meta_0,
        data_size(ref_block.header.version) as nat,
    ) {
        Some(ErrorKind::BlockError(crate::sbx_block::Error::TooMuchMetaData))
    } else {
        None
    }
}

/// Number of data and parity blocks that a repair goes over: the blocks of
/// the container without its metadata blocks, and no more than there are
/// sequence numbers.
pub open spec fn blocks_to_repair(total_block_count: u64, parity_shards: usize) -> int {
    let rest = total_block_count - (1 + parity_shards);
    if rest < 0 {
        0
    } else if rest > u32::MAX {
        u32::MAX as int
    } else {
        rest
    }
}

/// The bytes that the reference block is written out as.
pub open spec fn ref_block_bytes(ref_block: crate::sbx_block::BlockView) -> Seq<u8> {
    let payload = crate::sbx_block::block_payload(
        ref_block,
        crate::buffer::repeated(0, data_size(ref_block.header.version) as nat),
    );
    crate::sbx_block::header::header_bytes(
        crate::sbx_block::header_with_crc(ref_block.header, payload),
    ) + payload
}

/// What a repair works with, as the reference block and the parameters say.
pub open spec fn repair_spec(
    ref_block: crate::sbx_block::BlockView,
    data_par_burst: (usize, usize, usize),
    dry_run: bool,
) -> RepairSpec {
    RepairSpec {
        version: ref_block.header.version,
        uid: ref_block.header.uid,
        data_shards: data_par_burst.0,
        parity_shards: data_par_burst.1,
        burst: data_par_burst.2,
        dry_run,
    }
}

/// The container after a repair.
pub open spec fn repaired(
    c: Seq<u8>,
    ref_block: crate::sbx_block::BlockView,
    data_par_burst: (usize, usize, usize),
    total_block_count: u64,
    dry_run: bool,
) -> Seq<u8> {
    let spec = repair_spec(ref_block, data_par_burst, dry_run);
    let positions = meta_all_write_pos_s(spec.version, Some(data_par_burst));
    let blocks = blocks_to_repair(total_block_count, data_par_burst.1);
    stripes_repaired(
        meta_repaired(c, spec, positions, ref_block_bytes(ref_block), positions.len() as int),
        spec,
        blocks / spec.total_shards(),
    )
}

/// The counts of a repair.
pub open spec fn repair_counts(
    c: Seq<u8>,
    ref_block: crate::sbx_block::BlockView,
    data_par_burst: (usize, usize, usize),
    total_block_count: u64,
    dry_run: bool,
) -> Counts {
    let spec = repair_spec(ref_block, data_par_burst, dry_run);
    let positions = meta_all_write_pos_s(spec.version, Some(data_par_burst));
    let ref_bytes = ref_block_bytes(ref_block);
    let blocks = blocks_to_repair(total_block_count, data_par_burst.1);
    let stripes = blocks / spec.total_shards();
    let zero = Counts {
        meta_blocks_decoded: 0,
        data_or_par_blocks_decoded: 0,
        blocks_decode_failed: 0,
        meta_blocks_repaired: 0,
        data_or_par_blocks_repaired: 0,
        data_or_par_blocks_repair_failed: 0,
    };
    let after_meta = meta_repaired(c, spec, positions, ref_bytes, positions.len() as int);
    tail_counted(
        stripes_counted(
            meta_counted(zero, c, spec, positions, ref_bytes, positions.len() as int),
            after_meta,
            spec,
            stripes,
        ),
        stripes_repaired(after_meta, spec, stripes),
        spec,
        stripes,
        blocks % spec.total_shards(),
    )
}

/// Repairs a container in place. First the metadata blocks are seen to, then
/// the stripes one after the other, then the blocks of an incomplete last
/// stripe are counted.
pub fn repair(
    container: &mut Vec<u8>,
    ref_block: &Block,
    data_par_burst: (usize, usize, usize),
    total_block_count: u64,
    dry_run: bool,
) -> (r: Result<Stats, Error>)
    requires
        ref_block.wf(),
    ensures
        final(container)@.len() == old(container)@.len(),
        match r {
            Ok(stats) => repair_error(ref_block@, data_par_burst) is None && final(container)@
                == repaired(old(container)@, ref_block@, data_par_burst, total_block_count, dry_run)
                && stats.counts() == repair_counts(
                old(container)@,
                ref_block@,
                data_par_burst,
                total_block_count,
                dry_run,
            ) && stats.version == ref_block@.header.version && stats.block_size == block_size(
                ref_block@.header.version,
            ) && stats.total_blocks == total_block_count,
            Err(e) => repair_error(ref_block@, data_par_burst) == Some(e.kind) && final(container)@ == old(container)@,
        },
{
    let version: Version = ref_block.get_version();
    let uid: [u8; 6] = ref_block.get_uid();
    let ghost spec = repair_spec(ref_block@, data_par_burst, dry_run);
    let ghost c = container@;
    if ref_block.is_data() {
        return Err(Error::new(ErrorKind::ReferenceNotMeta));
    }
    let codec: RSCodec = match make_codec(version, Some(data_par_burst)) {
        Ok(Some(codec)) => codec,
        Ok(None) => {
            return Err(Error::new(ErrorKind::RSCodecCreateFail));
        },
        Err(e) => {
            return Err(e);
        },
    };
    let size: usize = ver_to_block_size(version);
    let mut ref_bytes: Vec<u8> = crate::buffer::zeros(size);
    let mut writer: Block = ref_block.clone();
    match writer.sync_to_buffer(None, ref_bytes.as_mut_slice()) {
        Ok(()) => {},
        Err(_) => {
            return Err(
                Error::new(ErrorKind::BlockError(crate::sbx_block::Error::TooMuchMetaData)),
            );
        },
    }
    proof {
        crate::sbx_block::header::lemma_header_round_trip(writer@.header);
        assert(ref_bytes@ =~= ref_block_bytes(ref_block@));
    }
    let (m, n, b) = data_par_burst;
    proof {
        assert(n * (1 + b) * 4096 <= 256 * (1 + crate::container::MAX_BURST) * 4096)
            by (nonlinear_arith)
            requires
                0 <= n <= 256,
                0 <= b <= crate::container::MAX_BURST,
        ;
    }
    let list: PositionList = calc_meta_block_all_write_pos_s(version, Some(data_par_burst));
    let positions: Vec<u64> = list.to_vec();
    let mut stats: Stats = Stats::new(ref_block, total_block_count);
    repair_meta_blocks(container, ref_block, &ref_bytes, &positions, dry_run, &mut stats, Ghost(spec));
    let ghost after_meta = container@;
    let rest: u64 = if total_block_count > 1 + n as u64 {
        total_block_count - (1 + n as u64)
    } else {
        0
    };
    let blocks: u32 = if rest > 0xFFFF_FFFF {
        0xFFFF_FFFF
    } else {
        rest as u32
    };
    let total: u32 = (m + n) as u32;
    let stripes: u32 = blocks / total;
    let tail: u32 = blocks % total;
    proof {
        vstd::arithmetic::div_mod::lemma_fundamental_div_mod(blocks as int, total as int);
        assert(0 <= stripes * total <= blocks && 0 <= tail < total && stripes * total + tail
            == blocks) by (nonlinear_arith)
            requires
                blocks == total * stripes + tail,
                tail == blocks % total,
                total >= 1,
                blocks >= 0,
                stripes == blocks / total,
        ;
    }
    let mut k: u32 = 0;
    while k < stripes
        invariant
            k <= stripes,
            stripes * total <= u32::MAX,
            stripes * total + tail <= u32::MAX,
            tail < total,
            total == spec.total_shards(),
            1 <= total <= 256,
            ref_block.wf(),
            layout_valid(version, Some(data_par_burst)),
            spec == repair_spec(ref_block@, data_par_burst, dry_run),
            version == ref_block@.header.version,
            uid@ == ref_block@.header.uid,
            rs_data_shards(codec) == data_par_burst.0,
            rs_parity_shards(codec) == data_par_burst.1,
            container@.len() == c.len(),
            container@ == stripes_repaired(after_meta, spec, k as int),
            stats.counts() == stripes_counted(
                meta_counted(
                    Stats::new_counts(),
                    c,
                    spec,
                    positions@,
                    ref_bytes@,
                    positions@.len() as int,
                ),
                after_meta,
                spec,
                k as int,
            ),
            stats.version == version,
            stats.block_size == block_size(version),
            stats.total_blocks == total_block_count,
            stats.data_or_par_blocks_decoded <= k * 256,
            stats.blocks_decode_failed <= 257 + k * 256,
            stats.data_or_par_blocks_repaired <= k * 256,
            stats.data_or_par_blocks_repair_failed <= k * 256,
        decreases stripes - k,
    {
        proof {
            assert((k + 1) * total <= stripes * total) by (nonlinear_arith)
                requires
                    k + 1 <= stripes,
                    total >= 0,
            ;
        }
        repair_stripe(
            container,
            &codec,
            version,
            &uid,
            data_par_burst,
            k,
            dry_run,
            &mut stats,
            Ghost(spec),
        );
        k += 1;
    }
    let ghost after_stripes = container@;
    let ghost counts_before_tail = stats.counts();
    let mut block: Block = Block::dummy();
    let mut i: u32 = 0;
    while i < tail
        invariant
            i <= tail,
            tail < total,
            stripes * total + tail <= u32::MAX,
            total == spec.total_shards(),
            layout_valid(version, Some(data_par_burst)),
            spec == repair_spec(ref_block@, data_par_burst, dry_run),
            version == ref_block@.header.version,
            uid@ == ref_block@.header.uid,
            container@ == after_stripes,
            stats.counts() == tail_counted(
                counts_before_tail,
                after_stripes,
                spec,
                stripes as int,
                i as int,
            ),
            stats.version == version,
            stats.block_size == block_size(version),
            stats.total_blocks == total_block_count,
            stats.data_or_par_blocks_decoded <= stripes * 256 + i,
            stats.blocks_decode_failed <= 257 + stripes * 256 + i,
        decreases tail - i,
    {
        proof {
            assert(stripes * total >= 0) by (nonlinear_arith)
                requires
                    stripes >= 0,
                    total >= 0,
            ;
        }
        let seq_num: u32 = stripes * total + i + 1;
        match find_data_block(
            container.as_slice(),
            version,
            &uid,
            Some(data_par_burst),
            seq_num,
            &mut block,
        ) {
            Some(_) => {
                stats.data_or_par_blocks_decoded += 1;
            },
            None => {
                stats.blocks_decode_failed += 1;
            },
        }
        i += 1;
    }
    Ok(stats)
}

/// A stripe of which more shards are missing than it has parity shards is
/// left as it is, and every missing shard of it is counted as one whose
/// repair failed: at least one more than the stripe has parity shards.
pub proof fn lemma_repair_limit(counts: Counts, c: Seq<u8>, spec: RepairSpec, k: int)
    requires
        present_count(stripe_shards(c, spec, k)) < spec.data_shards,
    ensures
        stripe_repaired(c, spec, k) == c,
        stripe_counted(counts, c, spec, k).data_or_par_blocks_repaired
            == counts.data_or_par_blocks_repaired,
        stripe_counted(counts, c, spec, k).data_or_par_blocks_repair_failed
            == counts.data_or_par_blocks_repair_failed + (spec.total_shards() - present_count(
            stripe_shards(c, spec, k),
        )),
        stripe_counted(counts, c, spec, k).data_or_par_blocks_repair_failed
            >= counts.data_or_par_blocks_repair_failed + spec.parity_shards + 1,
{
    let shards = stripe_shards(c, spec, k);
    lemma_nothing_rewritten(c, spec, shards, k, spec.total_shards());
}

/// How many blocks a repair is to go over: as many as a container for the
/// file size on record has, or, where no file size is on record, as many as
/// the container has slots.
pub open spec fn repair_block_count(
    c: Seq<u8>,
    ref_block: crate::sbx_block::BlockView,
    data_par_burst: (usize, usize, usize),
) -> int {
    match crate::decode_core::recorded_file_size(ref_block) {
        Some(file_size) => crate::container::total_block_count(
            ref_block.header.version,
            Some(data_par_burst),
            file_size as int,
        ),
        None => c.len() as int / block_size(ref_block.header.version),
    }
}

/// Repairs a container by its own reference block, which must be a metadata
/// block. Nothing is done to a container of a version without Reed-Solomon.
pub fn repair_file(container: &mut Vec<u8>, dry_run: bool, burst: Option<usize>) -> (r: Result<
    Option<Stats>,
    Error,
>)
    ensures
        final(container)@.len() == old(container)@.len(),
        match r {
            Ok(None) => final(container)@ == old(container)@ && container_params(
                old(container)@,
                RefBlockChoice::MustBe(BlockType::Meta),
                burst,
            ) matches Ok((pos, ref_block, None)),
            Ok(Some(stats)) => container_params(
                old(container)@,
                RefBlockChoice::MustBe(BlockType::Meta),
                burst,
            ) matches Ok((pos, ref_block, Some(data_par_burst))) && final(container)@ == repaired(
                old(container)@,
                ref_block,
                data_par_burst,
                repair_block_count(old(container)@, ref_block, data_par_burst) as u64,
                dry_run,
            ) && stats.counts() == repair_counts(
                old(container)@,
                ref_block,
                data_par_burst,
                repair_block_count(old(container)@, ref_block, data_par_burst) as u64,
                dry_run,
            ),
            Err(e) => final(container)@ == old(container)@ && (match container_params(
                old(container)@,
                RefBlockChoice::MustBe(BlockType::Meta),
                burst,
            ) {
                Err(kind) => e.kind == kind,
                Ok((pos, ref_block, Some(data_par_burst))) => repair_error(
                    ref_block,
                    data_par_burst,
                ) == Some(e.kind),
                Ok((pos, ref_block, None)) => false,
            }),
        },
{
    let params = match find_container_params(
        container.as_slice(),
        RefBlockChoice::MustBe(BlockType::Meta),
        burst,
    ) {
        Ok(p) => p,
        Err(e) => {
            return Err(e);
        },
    };
    let data_par_burst: (usize, usize, usize) = match params.data_par_burst {
        Some(x) => x,
        None => {
            return Ok(None);
        },
    };
    let version: Version = params.ref_block.get_version();
    let total_block_count: u64 = match params.ref_block.get_FSZ() {
        Ok(Some(file_size)) => crate::container::calc_total_block_count_exc_burst_gaps(
            version,
            Some(data_par_burst),
            file_size,
        ),
        _ => (container.len() / ver_to_block_size(version)) as u64,
    };
    match repair(container, &params.ref_block, data_par_burst, total_block_count, dry_run) {
        Ok(stats) => Ok(Some(stats)),
        Err(e) => Err(e),
    }
}

} // verus!
