//! Finding blocks in a stream of bytes that may hold anything: the lazy
//! scanner, which reads a whole block only behind a header that parses, and
//! the search for the block that a container's parameters are taken from.

use vstd::prelude::*;
use crate::sbx_block::Block;
use crate::sbx_block::BlockType;
use crate::sbx_block::BlockView;
use crate::sbx_block::Error;
use crate::sbx_block::block_after_read;
use crate::sbx_block::data_block_type;
use crate::sbx_block::parse_block;
use crate::sbx_block::header::parse_header;
use crate::container::calc_seq_num_at_index;
use crate::container::seq_at_index;
use crate::container::slot_of;
use crate::general_error::ErrorKind;
use crate::sbx_block::MetadataID;
use crate::sbx_block::metadata::first_with_id;
use crate::sbx_specs::Version;
use crate::sbx_specs::SBX_SCAN_BLOCK_SIZE;
use crate::sbx_specs::uses_rs;
use crate::sbx_specs::ver_uses_rs;
use crate::sbx_specs::block_size;
use crate::sbx_specs::ver_to_block_size;

verus! {

/// What one step of the scanner found.
#[derive(Clone, Copy, Debug, PartialEq, Eq, Structural)]
pub struct ReadResult {
    /// Bytes consumed by the step.
    pub len_read: usize,
    /// Whether the bytes consumed are a block that can be used.
    pub usable: bool,
    /// Whether the stream ended within the step.
    pub eof: bool,
}

/// Which block may serve as reference block.
#[derive(Clone, Copy, Debug, PartialEq, Eq, Structural)]
pub enum RefBlockChoice {
    /// The first block of either kind.
    Any,
    /// The first block of the kind given; the first of the other kind where
    /// the stream holds none.
    Prefer(BlockType),
    /// The first block of the kind given, or none.
    MustBe(BlockType),
}

/// The header that the scanner finds at `pos`: the stream must hold a whole
/// scan unit from there.
pub open spec fn scanned_header(s: Seq<u8>, pos: int) -> Option<crate::sbx_block::header::HeaderView> {
    if s.len() - pos < SBX_SCAN_BLOCK_SIZE {
        None
    } else {
        parse_header(s.subrange(pos, pos + 16))
    }
}

/// Bytes that a scanner step at `pos` consumes: what is left where the
/// stream ends within the scan unit or within the block, one scan unit where
/// no header is found, and else the block.
pub open spec fn lazy_read_len(s: Seq<u8>, pos: int) -> int {
    let left = s.len() - pos;
    if left < SBX_SCAN_BLOCK_SIZE {
        left
    } else {
        match scanned_header(s, pos) {
            None => SBX_SCAN_BLOCK_SIZE as int,
            Some(h) => if left < block_size(h.version) {
                left
            } else {
                block_size(h.version)
            },
        }
    }
}

/// Whether the stream ends within the scanner step at `pos`.
pub open spec fn lazy_read_eof(s: Seq<u8>, pos: int) -> bool {
    let left = s.len() - pos;
    left < SBX_SCAN_BLOCK_SIZE || (scanned_header(s, pos) matches Some(h) && left < block_size(
        h.version,
    ))
}

/// Whether the scanner step at `pos` finds a block: a header, the whole
/// block behind it, a CRC that matches and, in a metadata block, records.
pub open spec fn lazy_read_usable(s: Seq<u8>, pos: int) -> bool {
    !lazy_read_eof(s, pos) && parse_block(s.skip(pos)) is Ok
}

/// What a block holds after the scanner step at `pos`.
pub open spec fn block_after_lazy_read(before: BlockView, s: Seq<u8>, pos: int) -> BlockView {
    match scanned_header(s, pos) {
        None => before,
        Some(h) => block_after_read(before, s.skip(pos)),
    }
}

/// Whether the scanner finds at `pos` a block of the kind asked for.
pub open spec fn block_found_at(s: Seq<u8>, pos: int, kind: Option<BlockType>) -> bool {
    lazy_read_usable(s, pos) && (kind matches Some(k) ==> data_block_type(
        (parse_block(s.skip(pos))->Ok_0).data,
    ) == k)
}

/// Position of the first block of the kind asked for that the scanner finds
/// when it starts at `pos` and goes on, step by step, to the end of the stream.
pub open spec fn first_block_from(s: Seq<u8>, pos: int, kind: Option<BlockType>) -> Option<int>
    decreases s.len() - pos,
{
    if pos < 0 || pos > s.len() || lazy_read_eof(s, pos) {
        None
    } else if block_found_at(s, pos, kind) {
        Some(pos)
    } else {
        first_block_from(s, pos + lazy_read_len(s, pos), kind)
    }
}

/// The other kind of block.
pub open spec fn other_block_type(kind: BlockType) -> BlockType {
    match kind {
        BlockType::Data => BlockType::Meta,
        BlockType::Meta => BlockType::Data,
    }
}

/// Position of the reference block of a stream.
pub open spec fn ref_block_pos(s: Seq<u8>, choice: RefBlockChoice) -> Option<int> {
    match choice {
        RefBlockChoice::Any => first_block_from(s, 0, None),
        RefBlockChoice::MustBe(kind) => first_block_from(s, 0, Some(kind)),
        RefBlockChoice::Prefer(kind) => match first_block_from(s, 0, Some(kind)) {
            Some(pos) => Some(pos),
            None => first_block_from(s, 0, Some(other_block_type(kind))),
        },
    }
}

/// Whether a block is read from a buffer depends on the bytes of the block
/// alone, not on what follows them.
pub proof fn lemma_parse_block_prefix(a: Seq<u8>, b: Seq<u8>, len: int)
    requires
        16 <= len <= a.len(),
        len <= b.len(),
        a.subrange(0, len) == b.subrange(0, len),
        parse_header(a.subrange(0, 16)) matches Some(h) ==> block_size(h.version) <= len,
    ensures
        parse_block(a) == parse_block(b),
        forall|before: BlockView| block_after_read(before, a) == block_after_read(before, b),
{
    assert(a.subrange(0, 16) =~= a.subrange(0, len).subrange(0, 16));
    assert(b.subrange(0, 16) =~= b.subrange(0, len).subrange(0, 16));
    if let Some(h) = parse_header(a.subrange(0, 16)) {
        let size = block_size(h.version);
        assert(a.subrange(16, size) =~= a.subrange(0, len).subrange(16, size));
        assert(b.subrange(16, size) =~= b.subrange(0, len).subrange(16, size));
    }
}

/// One step of the scanner at `pos`: reads a scan unit, and behind a header
/// that parses the rest of the block.
pub fn read_block_lazily(block: &mut Block, stream: &[u8], pos: usize) -> (r: ReadResult)
    requires
        pos <= stream@.len(),
    ensures
        r.len_read == lazy_read_len(stream@, pos as int),
        r.usable == lazy_read_usable(stream@, pos as int),
        r.eof == lazy_read_eof(stream@, pos as int),
        pos + r.len_read <= stream@.len(),
        !r.eof ==> r.len_read >= SBX_SCAN_BLOCK_SIZE,
        final(block)@ == block_after_lazy_read(old(block)@, stream@, pos as int),
        r.usable ==> final(block).wf() && parse_block(stream@.skip(pos as int)) == Ok::<
            BlockView,
            Error,
        >(final(block)@),
{
    let left: usize = stream.len() - pos;
    if left < SBX_SCAN_BLOCK_SIZE {
        return ReadResult { len_read: left, usable: false, eof: true };
    }
    let ghost rest = stream@.skip(pos as int);
    let scan_unit = &stream[pos..pos + SBX_SCAN_BLOCK_SIZE];
    assert(scan_unit@.subrange(0, 16) =~= stream@.subrange(pos as int, pos + 16));
    assert(rest.subrange(0, 16) =~= stream@.subrange(pos as int, pos + 16));
    match block.sync_from_buffer_header_only(scan_unit) {
        Ok(()) => {},
        Err(_) => {
            return ReadResult { len_read: SBX_SCAN_BLOCK_SIZE, usable: false, eof: false };
        },
    }
    let block_size: usize = ver_to_block_size(block.get_version());
    if left < block_size {
        proof {
            assert(parse_block(rest) == Err::<BlockView, Error>(Error::InsufficientBufferSize));
        }
        return ReadResult { len_read: left, usable: false, eof: true };
    }
    let whole = &stream[pos..pos + block_size];
    proof {
        assert(whole@.subrange(0, 16) =~= stream@.subrange(pos as int, pos + 16));
        assert(whole@.subrange(0, block_size as int) =~= rest.subrange(0, block_size as int));
        lemma_parse_block_prefix(whole@, rest, block_size as int);
    }
    let ghost middle = block@;
    match block.sync_from_buffer_checked(whole) {
        Ok(()) => ReadResult { len_read: block_size, usable: true, eof: false },
        Err(_) => {
            assert(block@ == block_after_read(old(block)@, rest));
            ReadResult { len_read: block_size, usable: false, eof: false }
        },
    }
}

/// The first block of the kind asked for that the scanner finds from the
/// start of the stream, with the position it was found at.
pub fn get_ref_block(stream: &[u8], ref_block_choice: RefBlockChoice) -> (r: Option<(u64, Block)>)
    ensures
        match r {
            Some((pos, block)) => ref_block_pos(stream@, ref_block_choice) == Some(pos as int)
                && pos <= stream@.len() && block.wf() && parse_block(stream@.skip(pos as int))
                == Ok::<BlockView, Error>(block@),
            None => ref_block_pos(stream@, ref_block_choice) is None,
        },
{
    let wanted: Option<BlockType> = match ref_block_choice {
        RefBlockChoice::Any => None,
        RefBlockChoice::Prefer(kind) => Some(kind),
        RefBlockChoice::MustBe(kind) => Some(kind),
    };
    let keep_other: bool = match ref_block_choice {
        RefBlockChoice::Prefer(_) => true,
        _ => false,
    };
    let ghost other_kind: Option<BlockType> = match wanted {
        Some(kind) => Some(other_block_type(kind)),
        None => None,
    };
    let mut block: Block = Block::dummy();
    let mut other: Option<(u64, Block)> = None;
    let n: usize = stream.len();
    assert(n <= u64::MAX);
    let mut pos: usize = 0;
    loop
        invariant
            pos <= n,
            n == stream@.len(),
            n <= u64::MAX,
            wanted == (match ref_block_choice {
                RefBlockChoice::Any => None,
                RefBlockChoice::Prefer(kind) => Some(kind),
                RefBlockChoice::MustBe(kind) => Some(kind),
            }),
            keep_other == (ref_block_choice is Prefer),
            other_kind == (match wanted {
                Some(kind) => Some(other_block_type(kind)),
                None => None,
            }),
            first_block_from(stream@, 0, wanted) == first_block_from(stream@, pos as int, wanted),
            keep_other ==> (match other {
                Some((at, found)) => first_block_from(stream@, 0, other_kind) == Some(at as int)
                    && at <= n && found.wf() && parse_block(stream@.skip(at as int)) == Ok::<
                    BlockView,
                    Error,
                >(found@),
                None => first_block_from(stream@, 0, other_kind) == first_block_from(
                    stream@,
                    pos as int,
                    other_kind,
                ),
            }),
            !keep_other ==> other is None,
        ensures
            lazy_read_eof(stream@, pos as int),
        decreases n - pos,
    {
        let res: ReadResult = read_block_lazily(&mut block, stream, pos);
        if res.eof {
            break ;
        }
        if res.usable {
            let is_wanted: bool = match wanted {
                None => true,
                Some(kind) => block.block_type() == kind,
            };
            if is_wanted {
                return Some((pos as u64, block));
            }
            if keep_other && other.is_none() {
                other = Some((pos as u64, block.clone()));
            }
        }
        pos += res.len_read;
    }
    other
}

/// Whether the scanner finds no header at any step from `pos` up to `end`,
/// going on by one scan unit each time.
pub open spec fn no_header_between(s: Seq<u8>, pos: int, end: int) -> bool {
    forall|p: int|
        pos <= p < end && (p - pos) % (SBX_SCAN_BLOCK_SIZE as int) == 0 ==> #[trigger] scanned_header(
            s,
            p,
        ) is None && s.len() - p >= SBX_SCAN_BLOCK_SIZE
}

/// The scanner passes over bytes in which it finds no header, one scan unit
/// at a time.
pub proof fn lemma_scanner_skips(s: Seq<u8>, pos: int, end: int, kind: Option<BlockType>)
    requires
        0 <= pos <= end <= s.len(),
        (end - pos) % (SBX_SCAN_BLOCK_SIZE as int) == 0,
        no_header_between(s, pos, end),
    ensures
        first_block_from(s, pos, kind) == first_block_from(s, end, kind),
    decreases end - pos,
{
    if pos < end {
        assert(scanned_header(s, pos) is None && s.len() - pos >= SBX_SCAN_BLOCK_SIZE);
        let next = pos + SBX_SCAN_BLOCK_SIZE;
        assert(lazy_read_len(s, pos) == SBX_SCAN_BLOCK_SIZE);
        assert(!lazy_read_eof(s, pos));
        assert(parse_block(s.skip(pos)) is Err) by {
            assert(s.skip(pos).subrange(0, 16) =~= s.subrange(pos, pos + 16));
        }
        assert forall|p: int|
            next <= p < end && (p - next) % (SBX_SCAN_BLOCK_SIZE as int) == 0 implies #[trigger] scanned_header(
            s,
            p,
        ) is None && s.len() - p >= SBX_SCAN_BLOCK_SIZE by {
            assert((p - pos) % (SBX_SCAN_BLOCK_SIZE as int) == 0);
        }
        lemma_scanner_skips(s, next, end, kind);
    }
}

/// Whether none of the whole scan units of `garbage` begins like a block.
pub open spec fn no_header_in(garbage: Seq<u8>) -> bool {
    forall|j: int|
        0 <= j && j * SBX_SCAN_BLOCK_SIZE < garbage.len() ==> parse_header(
            #[trigger] garbage.subrange(j * SBX_SCAN_BLOCK_SIZE, j * SBX_SCAN_BLOCK_SIZE + 16),
        ) is None
}

/// The scanner finds no header in a scan unit of garbage that is put before
/// other bytes.
proof fn lemma_garbage_unit(garbage: Seq<u8>, rest: Seq<u8>, p: int)
    requires
        garbage.len() % (SBX_SCAN_BLOCK_SIZE as nat) == 0,
        no_header_in(garbage),
        0 <= p < garbage.len(),
        p % (SBX_SCAN_BLOCK_SIZE as int) == 0,
    ensures
        scanned_header(garbage + rest, p) is None,
        (garbage + rest).len() - p >= SBX_SCAN_BLOCK_SIZE,
{
    let s = garbage + rest;
    let j = p / 128;
    assert(SBX_SCAN_BLOCK_SIZE == 128);
    assert(p == j * 128);
    assert(garbage.len() % 128 == 0);
    assert(p + 128 <= garbage.len());
    assert(s.subrange(p, p + 16) =~= garbage.subrange(j * 128, j * 128 + 16));
    assert(parse_header(garbage.subrange(j * SBX_SCAN_BLOCK_SIZE, j * SBX_SCAN_BLOCK_SIZE + 16))
        is None);
}

/// What the scanner finds where other bytes are put before a stream is what
/// it finds in the stream.
proof fn lemma_scan_behind(garbage: Seq<u8>, rest: Seq<u8>)
    ensures
        lazy_read_usable(garbage + rest, garbage.len() as int) == lazy_read_usable(rest, 0),
        lazy_read_eof(garbage + rest, garbage.len() as int) == lazy_read_eof(rest, 0),
{
    let s = garbage + rest;
    let end = garbage.len() as int;
    assert(rest.skip(0) =~= rest);
    assert(s.skip(end) =~= rest);
    if rest.len() >= 16 {
        assert(s.subrange(end, end + 16) =~= rest.subrange(0, 16));
    }
}

/// Lazy scanner recovery: bytes that are put before a block, in whole scan
/// units of which none begins like a block, are passed over by the scanner:
/// it finds the block right behind them.
pub proof fn lemma_scanner_recovers(garbage: Seq<u8>, rest: Seq<u8>)
    requires
        garbage.len() % (SBX_SCAN_BLOCK_SIZE as nat) == 0,
        no_header_in(garbage),
        lazy_read_usable(rest, 0),
    ensures
        first_block_from(garbage + rest, 0, None) == Some(garbage.len() as int),
{
    let s = garbage + rest;
    let end = garbage.len() as int;
    assert forall|p: int|
        0 <= p < end && (p - 0) % (SBX_SCAN_BLOCK_SIZE as int) == 0 implies #[trigger] scanned_header(
        s,
        p,
    ) is None && s.len() - p >= SBX_SCAN_BLOCK_SIZE by {
        lemma_garbage_unit(garbage, rest, p);
    }
    lemma_scanner_skips(s, 0, end, None);
    lemma_scan_behind(garbage, rest);
}

/// Largest burst resistance level that is tried when the level is guessed.
pub const SBX_MAX_BURST_ERR_RESISTANCE: usize = 1000;

/// Number of slots at the start of a container that are looked at when the
/// burst resistance level is guessed.
pub const SBX_BURST_SAMPLE_SLOTS: usize = 1024;

/// Number of slots that are looked at: the whole slots of the container, up
/// to the number of samples.
pub open spec fn sample_count(len: int, version: Version) -> int {
    let slots = len / block_size(version);
    if slots < SBX_BURST_SAMPLE_SLOTS {
        slots
    } else {
        SBX_BURST_SAMPLE_SLOTS as int
    }
}

/// The sequence number of the block in slot `i`, if the slot holds a block
/// of the container.
pub open spec fn sampled_seq_num(c: Seq<u8>, version: Version, uid: Seq<u8>, i: int) -> Option<u32> {
    match parse_block(slot_of(c, i, version)) {
        Ok(b) if b.header.version == version && b.header.uid == uid => Some(b.header.seq_num),
        _ => None,
    }
}

/// Whether a burst resistance level fits a container: every block among the
/// first `samples` slots lies where the level puts it.
pub open spec fn burst_fits(
    c: Seq<u8>,
    version: Version,
    uid: Seq<u8>,
    m: usize,
    n: usize,
    b: usize,
    samples: int,
) -> bool {
    forall|i: int|
        0 <= i < samples ==> ((#[trigger] sampled_seq_num(c, version, uid, i)) matches Some(
            seq_num,
        ) ==> seq_num == seq_at_index(i, Some((m, n, b))))
}

/// The first level from `from` up to the largest that is tried which fits.
pub open spec fn first_fitting_burst(
    c: Seq<u8>,
    version: Version,
    uid: Seq<u8>,
    m: usize,
    n: usize,
    from: int,
) -> Option<usize>
    decreases SBX_MAX_BURST_ERR_RESISTANCE + 1 - from,
{
    if from < 0 || from > SBX_MAX_BURST_ERR_RESISTANCE {
        None
    } else if burst_fits(c, version, uid, m, n, from as usize, sample_count(c.len() as int, version)) {
        Some(from as usize)
    } else {
        first_fitting_burst(c, version, uid, m, n, from + 1)
    }
}

/// Guesses the burst resistance level of a container: the lowest level that
/// puts every block among the first slots where it lies.
pub fn guess_burst_err_resistance_level(
    container: &[u8],
    ref_block: &Block,
    data_shards: usize,
    parity_shards: usize,
) -> (r: Option<usize>)
    requires
        ref_block.wf(),
        1 <= data_shards,
        data_shards + parity_shards <= 256,
    ensures
        r == first_fitting_burst(
            container@,
            ref_block@.header.version,
            ref_block@.header.uid,
            data_shards,
            parity_shards,
            0,
        ),
{
    let version: Version = ref_block.get_version();
    let size: usize = ver_to_block_size(version);
    let len: usize = container.len();
    let slots: usize = len / size;
    let samples: usize = if slots < SBX_BURST_SAMPLE_SLOTS {
        slots
    } else {
        SBX_BURST_SAMPLE_SLOTS
    };
    let ghost c = container@;
    let ghost uid = ref_block@.header.uid;
    let mut found: Vec<Option<u32>> = Vec::new();
    let mut block: Block = Block::dummy();
    let mut i: usize = 0;
    proof {
        vstd::arithmetic::div_mod::lemma_fundamental_div_mod(c.len() as int, size as int);
        assert(slots * size <= c.len()) by (nonlinear_arith)
            requires
                c.len() == size * slots + c.len() % (size as nat),
                size >= 1,
        ;
    }
    while i < samples
        invariant
            i <= samples,
            samples <= slots,
            slots * size <= len,
            len == c.len(),
            c == container@,
            ref_block.wf(),
            version == ref_block@.header.version,
            uid == ref_block@.header.uid,
            size == block_size(version),
            found@.len() == i,
            forall|x: int| 0 <= x < i ==> #[trigger] found@[x] == sampled_seq_num(c, version, uid, x),
        decreases samples - i,
    {
        proof {
            assert(0 <= i * size && (i + 1) * size <= slots * size && (i + 1) * size == i * size
                + size) by (nonlinear_arith)
                requires
                    0 <= i < slots,
                    size >= 0,
            ;
        }
        let from: usize = i * size;
        let window: &[u8] = &container[from..from + size];
        assert(window@ == slot_of(c, i as int, version));
        let seq_num: Option<u32> = match block.sync_from_buffer_checked(window) {
            Ok(()) => {
                if block.same_ver_uid(ref_block) {
                    Some(block.get_seq_num())
                } else {
                    None
                }
            },
            Err(_) => None,
        };
        found.push(seq_num);
        i += 1;
    }
    let mut level: usize = 0;
    while level <= SBX_MAX_BURST_ERR_RESISTANCE
        invariant
            level <= SBX_MAX_BURST_ERR_RESISTANCE + 1,
            c == container@,
            version == ref_block@.header.version,
            uid == ref_block@.header.uid,
            samples == sample_count(c.len() as int, version),
            samples <= SBX_BURST_SAMPLE_SLOTS,
            1 <= data_shards,
            data_shards + parity_shards <= 256,
            found@.len() == samples,
            forall|x: int|
                0 <= x < samples ==> #[trigger] found@[x] == sampled_seq_num(c, version, uid, x),
            first_fitting_burst(c, version, uid, data_shards, parity_shards, 0)
                == first_fitting_burst(c, version, uid, data_shards, parity_shards, level as int),
        decreases SBX_MAX_BURST_ERR_RESISTANCE + 1 - level,
    {
        let mut fits: bool = true;
        let mut i: usize = 0;
        while i < samples && fits
            invariant
                i <= samples,
                samples <= SBX_BURST_SAMPLE_SLOTS,
                level <= SBX_MAX_BURST_ERR_RESISTANCE,
                1 <= data_shards,
                data_shards + parity_shards <= 256,
                found@.len() == samples,
                forall|x: int|
                    0 <= x < samples ==> #[trigger] found@[x] == sampled_seq_num(
                        c,
                        version,
                        uid,
                        x,
                    ),
                fits ==> burst_fits(
                    c,
                    version,
                    uid,
                    data_shards,
                    parity_shards,
                    level,
                    i as int,
                ),
                !fits ==> !burst_fits(
                    c,
                    version,
                    uid,
                    data_shards,
                    parity_shards,
                    level,
                    samples as int,
                ),
            decreases samples - i,
        {
            match found[i] {
                Some(seq_num) => {
                    let expected: u64 = calc_seq_num_at_index(
                        i as u64,
                        Some((data_shards, parity_shards, level)),
                    );
                    if expected != seq_num as u64 {
                        assert(sampled_seq_num(c, version, uid, i as int) == Some(seq_num));
                        fits = false;
                    }
                },
                None => {},
            }
            i += 1;
        }
        if fits {
            assert(burst_fits(
                c,
                version,
                uid,
                data_shards,
                parity_shards,
                level,
                sample_count(c.len() as int, version),
            ));
            return Some(level);
        }
        level += 1;
    }
    None
}

/// The Reed-Solomon parameters of a container, as far as its reference block
/// and the level given or guessed say: none for a version without
/// Reed-Solomon.
pub open spec fn data_par_burst_of(
    c: Seq<u8>,
    ref_block: BlockView,
    burst: Option<usize>,
) -> Result<Option<(usize, usize, usize)>, ErrorKind> {
    let version = ref_block.header.version;
    if !uses_rs(version) {
        Ok(None)
    } else {
        match ref_block.data {
            crate::sbx_block::DataView::Data => Err(ErrorKind::ReferenceNotMeta),
            crate::sbx_block::DataView::Meta(ms) => {
                if first_with_id(ms, MetadataID::RSD) is None || first_with_id(
                    ms,
                    MetadataID::RSP,
                ) is None {
                    Err(ErrorKind::MissingShardCount)
                } else {
                    let m = ms[first_with_id(ms, MetadataID::RSD)->0]->RSD_0 as usize;
                    let n = ms[first_with_id(ms, MetadataID::RSP)->0]->RSP_0 as usize;
                    if m < 1 || n < 1 || m + n > 256 {
                        Err(ErrorKind::RSCodecCreateFail)
                    } else {
                        match burst {
                            Some(b) => Ok(Some((m, n, b))),
                            None => match first_fitting_burst(
                                c,
                                version,
                                ref_block.header.uid,
                                m,
                                n,
                                0,
                            ) {
                                Some(b) => Ok(Some((m, n, b))),
                                None => Err(ErrorKind::BurstGuessFail),
                            },
                        }
                    }
                }
            },
        }
    }
}

/// Finds the Reed-Solomon parameters of a container: the shard counts are
/// read from the reference block, the burst resistance level is the one
/// given, or guessed where none is given.
pub fn get_data_par_burst(container: &[u8], ref_block: &Block, burst: Option<usize>) -> (r: Result<
    Option<(usize, usize, usize)>,
    crate::general_error::Error,
>)
    requires
        ref_block.wf(),
    ensures
        match r {
            Ok(x) => data_par_burst_of(container@, ref_block@, burst) == Ok::<
                Option<(usize, usize, usize)>,
                ErrorKind,
            >(x),
            Err(e) => data_par_burst_of(container@, ref_block@, burst) == Err::<
                Option<(usize, usize, usize)>,
                ErrorKind,
            >(e.kind),
        },
{
    if !ver_uses_rs(ref_block.get_version()) {
        return Ok(None);
    }
    if ref_block.is_data() {
        return Err(crate::general_error::Error::new(ErrorKind::ReferenceNotMeta));
    }
    let m: usize = match ref_block.get_RSD() {
        Ok(Some(x)) => x as usize,
        _ => {
            return Err(crate::general_error::Error::new(ErrorKind::MissingShardCount));
        },
    };
    let n: usize = match ref_block.get_RSP() {
        Ok(Some(x)) => x as usize,
        _ => {
            return Err(crate::general_error::Error::new(ErrorKind::MissingShardCount));
        },
    };
    if m < 1 || n < 1 || m + n > 256 {
        return Err(crate::general_error::Error::new(ErrorKind::RSCodecCreateFail));
    }
    match burst {
        Some(b) => Ok(Some((m, n, b))),
        None => {
            match guess_burst_err_resistance_level(container, ref_block, m, n) {
                Some(b) => Ok(Some((m, n, b))),
                None => Err(crate::general_error::Error::new(ErrorKind::BurstGuessFail)),
            }
        },
    }
}

/// Where the reference block of a container lies, the block itself, and the
/// Reed-Solomon parameters of the container.
#[derive(Debug)]
pub struct ContainerParams {
    pub ref_block_pos: u64,
    pub ref_block: Block,
    pub data_par_burst: Option<(usize, usize, usize)>,
}

/// What is found out about a container before it is worked on, or why it
/// cannot be worked on: there must be a reference block, and for a version
/// with Reed-Solomon shard counts and a burst resistance level that
/// positions can be computed for.
pub open spec fn container_params(
    c: Seq<u8>,
    choice: RefBlockChoice,
    burst: Option<usize>,
) -> Result<(int, BlockView, Option<(usize, usize, usize)>), ErrorKind> {
    match ref_block_pos(c, choice) {
        None => Err(ErrorKind::NoReferenceBlock),
        Some(pos) => {
            let ref_block = parse_block(c.skip(pos))->Ok_0;
            match data_par_burst_of(c, ref_block, burst) {
                Err(kind) => Err(kind),
                Ok(Some((m, n, b))) => if b > crate::container::MAX_BURST {
                    Err(ErrorKind::BurstTooLarge)
                } else {
                    Ok((pos, ref_block, Some((m, n, b))))
                },
                Ok(None) => Ok((pos, ref_block, None)),
            }
        },
    }
}

/// Finds the reference block of a container and its Reed-Solomon parameters.
pub fn find_container_params(container: &[u8], choice: RefBlockChoice, burst: Option<usize>) -> (r:
    Result<ContainerParams, crate::general_error::Error>)
    ensures
        match r {
            Ok(p) => container_params(container@, choice, burst) == Ok::<
                (int, BlockView, Option<(usize, usize, usize)>),
                ErrorKind,
            >((p.ref_block_pos as int, p.ref_block@, p.data_par_burst)) && p.ref_block.wf()
                && crate::container::layout_valid(p.ref_block@.header.version, p.data_par_burst),
            Err(e) => container_params(container@, choice, burst) == Err::<
                (int, BlockView, Option<(usize, usize, usize)>),
                ErrorKind,
            >(e.kind),
        },
{
    let (ref_block_pos, ref_block) = match get_ref_block(container, choice) {
        Some(x) => x,
        None => {
            return Err(crate::general_error::Error::new(ErrorKind::NoReferenceBlock));
        },
    };
    let data_par_burst: Option<(usize, usize, usize)> = match get_data_par_burst(
        container,
        &ref_block,
        burst,
    ) {
        Ok(x) => x,
        Err(e) => {
            return Err(e);
        },
    };
    match data_par_burst {
        Some((_, _, b)) => {
            if b > crate::container::MAX_BURST {
                return Err(crate::general_error::Error::new(ErrorKind::BurstTooLarge));
            }
        },
        None => {},
    }
    Ok(ContainerParams { ref_block_pos, ref_block, data_par_burst })
}

} // verus!
