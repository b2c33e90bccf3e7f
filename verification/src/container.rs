//! The layout of a container: which block lies in which slot, how the
//! stored file is cut into the payloads of the data blocks, and what the
//! bytes of each block are.
//!
//! A container is a row of slots of one block size. Slot 0 holds the
//! metadata block. Without Reed-Solomon the data block with sequence number
//! `s` lies in slot `s`. With Reed-Solomon the sequence numbers run through
//! stripes of `m` data shards followed by `n` parity shards, copies of the
//! metadata block stand among the first shards, and the shards are
//! interleaved as the burst resistance level asks. The last stripe may be
//! incomplete: it then holds data shards only and has no parity.

use vstd::prelude::*;
use vstd::arithmetic::div_mod::lemma_fundamental_div_mod;
use vstd::arithmetic::div_mod::lemma_fundamental_div_mod_converse;
use crate::buffer::append_repeated;
use crate::buffer::copy_into;
use crate::buffer::repeated;
use crate::buffer::zeros;
use crate::sbx_block::Block;
use crate::sbx_block::BlockType;
use crate::sbx_block::Metadata;
use crate::sbx_block::metadata::records_fit;
use crate::sbx_block::metadata::views;
use crate::sbx_block::position::calc_rs_enabled_data_write_index;
use crate::sbx_block::position::calc_rs_enabled_seq_num_at_index_wide;
use crate::sbx_block::position::lemma_seq_num_at_index_bound;
use crate::sbx_specs::SBX_HEADER_SIZE;
use crate::sbx_specs::ver_to_block_size;
use crate::sbx_specs::ver_to_data_size;
use crate::rs_codec::rs_parity;
use crate::rs_codec::shards_have_len;
use crate::sbx_block::DataView;
use crate::sbx_block::header_with_crc;
use crate::sbx_block::header::HeaderView;
use crate::sbx_block::header::header_bytes;
use crate::sbx_block::metadata::MetadataView;
use crate::sbx_block::metadata::payload_bytes;
use crate::sbx_block::position::lemma_index_round_trip;
use crate::sbx_block::position::lemma_seq_num_round_trip;
use crate::sbx_block::position::rs_data_write_index;
use crate::sbx_block::position::rs_seq_num_at_index;
use crate::sbx_specs::Version;
use crate::sbx_specs::block_size;
use crate::sbx_specs::data_size;
use crate::sbx_specs::uses_rs;

verus! {

/// Largest burst resistance level that positions are computed for.
pub const MAX_BURST: usize = 0xFFFF_FFFF;

/// Whether version and Reed-Solomon parameters go together: a version with
/// Reed-Solomon needs at least one data shard, at least one parity shard and
/// at most 256 shards in all; a version without has no such parameters.
pub open spec fn layout_valid(version: Version, data_par_burst: Option<(usize, usize, usize)>) -> bool {
    match data_par_burst {
        None => !uses_rs(version),
        Some((m, n, b)) => uses_rs(version) && 1 <= m && 1 <= n && m + n <= 256 && b <= MAX_BURST,
    }
}

/// Slot of the data or parity block `seq_num`.
pub open spec fn write_index(seq_num: int, data_par_burst: Option<(usize, usize, usize)>) -> int {
    match data_par_burst {
        None => seq_num,
        Some((m, n, b)) => rs_data_write_index(seq_num, m as int, n as int, b as int),
    }
}

/// Sequence number of the block that belongs in slot `index`; 0 for a
/// metadata block.
pub open spec fn seq_at_index(index: int, data_par_burst: Option<(usize, usize, usize)>) -> int {
    match data_par_burst {
        None => index,
        Some((m, n, b)) => rs_seq_num_at_index(index, m as int, n as int, b as int),
    }
}

/// Slot of the last copy of the metadata block.
pub open spec fn last_meta_index(data_par_burst: Option<(usize, usize, usize)>) -> int {
    match data_par_burst {
        None => 0,
        Some((m, n, b)) => n * (1 + b),
    }
}

/// Largest slot among the metadata blocks and the blocks `1..=last`.
pub open spec fn max_index(last: int, data_par_burst: Option<(usize, usize, usize)>) -> int
    decreases last,
{
    if last <= 0 {
        last_meta_index(data_par_burst)
    } else {
        let before = max_index(last - 1, data_par_burst);
        let this = write_index(last, data_par_burst);
        if this > before {
            this
        } else {
            before
        }
    }
}

/// Number of data blocks that a file of `len` bytes is cut into.
pub open spec fn chunk_count(len: int, version: Version) -> int {
    (len + data_size(version) - 1) / data_size(version)
}

/// Sequence number of the data block that holds chunk `j`, counted from zero.
pub open spec fn seq_of_chunk(j: int, data_par_burst: Option<(usize, usize, usize)>) -> int {
    match data_par_burst {
        None => j + 1,
        Some((m, n, b)) => (j / (m as int)) * (m + n) + j % (m as int) + 1,
    }
}

/// Whether `seq_num` names a parity shard.
pub open spec fn is_parity_seq(seq_num: int, data_par_burst: Option<(usize, usize, usize)>) -> bool {
    match data_par_burst {
        None => false,
        Some((m, n, b)) => (seq_num - 1) % (m + n) >= m,
    }
}

/// The chunk that the data block `seq_num` holds.
pub open spec fn chunk_of_seq(seq_num: int, data_par_burst: Option<(usize, usize, usize)>) -> int {
    match data_par_burst {
        None => seq_num - 1,
        Some((m, n, b)) => ((seq_num - 1) / (m + n)) * m + (seq_num - 1) % (m + n),
    }
}

/// The largest sequence number in a container of `chunks` data blocks: every
/// complete stripe has its parity, an incomplete last stripe has none.
pub open spec fn last_seq_num(chunks: int, data_par_burst: Option<(usize, usize, usize)>) -> int {
    match data_par_burst {
        None => chunks,
        Some((m, n, b)) => (chunks / (m as int)) * (m + n) + chunks % (m as int),
    }
}

/// Number of slots of a container of `chunks` data blocks.
pub open spec fn slot_count(chunks: int, data_par_burst: Option<(usize, usize, usize)>) -> int {
    1 + max_index(last_seq_num(chunks, data_par_burst), data_par_burst)
}

/// The payload of the data block for chunk `j`: the bytes of the file from
/// `j * size` on, and zeros behind the end of the file.
pub open spec fn chunk_payload(input: Seq<u8>, j: int, size: int) -> Seq<u8> {
    let from = j * size;
    let to = if from + size <= input.len() {
        from + size
    } else {
        input.len() as int
    };
    input.subrange(from, to) + repeated(0, (size - (to - from)) as nat)
}

/// The payloads of the data shards of stripe `k`.
pub open spec fn stripe_payloads(input: Seq<u8>, k: int, m: int, size: int) -> Seq<Seq<u8>> {
    Seq::new(m as nat, |i: int| chunk_payload(input, k * m + i, size))
}

/// The payload of the block `seq_num`: a chunk of the file for a data
/// block, and for a parity shard the parity of the data of its stripe.
pub open spec fn seq_payload(
    input: Seq<u8>,
    version: Version,
    data_par_burst: Option<(usize, usize, usize)>,
    seq_num: int,
) -> Seq<u8> {
    let size = data_size(version);
    match data_par_burst {
        None => chunk_payload(input, seq_num - 1, size),
        Some((m, n, b)) => {
            let stripe = (seq_num - 1) / (m + n);
            let within = (seq_num - 1) % (m + n);
            if within < m {
                chunk_payload(input, stripe * m + within, size)
            } else {
                rs_parity(m as nat, n as nat, stripe_payloads(input, stripe, m as int, size))[within
                    - m]
            }
        },
    }
}

/// The header of the block `seq_num` of a container, before its CRC is known.
pub open spec fn plain_header(version: Version, uid: Seq<u8>, seq_num: u32) -> HeaderView {
    HeaderView { version, crc: 0, uid, seq_num }
}

/// The bytes of a block with the payload given: the header with the CRC of
/// the payload, then the payload.
pub open spec fn block_bytes(version: Version, uid: Seq<u8>, seq_num: u32, payload: Seq<u8>) -> Seq<
    u8,
> {
    header_bytes(header_with_crc(plain_header(version, uid, seq_num), payload)) + payload
}

/// The bytes of the metadata block with the records given.
pub open spec fn meta_block_bytes(version: Version, uid: Seq<u8>, records: Seq<MetadataView>) -> Seq<
    u8,
> {
    block_bytes(version, uid, 0, payload_bytes(records, data_size(version) as nat))
}

/// What a container is made from.
pub struct ContainerSpec {
    pub version: Version,
    pub uid: Seq<u8>,
    pub data_par_burst: Option<(usize, usize, usize)>,
    pub records: Seq<MetadataView>,
    pub input: Seq<u8>,
}

/// The bytes that belong in slot `index` of a container: the metadata block
/// where a metadata block lies, the block of the sequence number that the
/// slot stands for if the container has such a block, and zeros otherwise.
pub open spec fn slot_bytes(spec: ContainerSpec, index: int) -> Seq<u8> {
    let seq_num = seq_at_index(index, spec.data_par_burst);
    let chunks = chunk_count(spec.input.len() as int, spec.version);
    if seq_num == 0 {
        meta_block_bytes(spec.version, spec.uid, spec.records)
    } else if seq_num <= last_seq_num(chunks, spec.data_par_burst) {
        block_bytes(
            spec.version,
            spec.uid,
            seq_num as u32,
            seq_payload(spec.input, spec.version, spec.data_par_burst, seq_num),
        )
    } else {
        repeated(0, block_size(spec.version) as nat)
    }
}

/// Slot `index` of a container.
pub open spec fn slot_of(c: Seq<u8>, index: int, version: Version) -> Seq<u8> {
    c.subrange(index * block_size(version), (index + 1) * block_size(version))
}

/// Whether `c` is the container made from `spec`: it has the slots up to the
/// last block, and every slot holds the bytes that belong in it.
pub open spec fn is_container_of(c: Seq<u8>, spec: ContainerSpec) -> bool {
    let chunks = chunk_count(spec.input.len() as int, spec.version);
    let count = slot_count(chunks, spec.data_par_burst);
    &&& c.len() == count * block_size(spec.version)
    &&& forall|i: int| 0 <= i < count ==> #[trigger] slot_of(c, i, spec.version) == slot_bytes(spec, i)
}

/// Whether the parity of every complete stripe of a container is as many
/// shards as the stripe has parity shards, each as long as a payload: what
/// the codec gives for every container that is made with it.
pub open spec fn parity_shaped(spec: ContainerSpec) -> bool {
    match spec.data_par_burst {
        None => true,
        Some((m, n, b)) => forall|k: int|
            0 <= k < chunk_count(spec.input.len() as int, spec.version) / (m as int) ==> (
            #[trigger] rs_parity(
                m as nat,
                n as nat,
                stripe_payloads(spec.input, k, m as int, data_size(spec.version)),
            )).len() == n && shards_have_len(
                rs_parity(
                    m as nat,
                    n as nat,
                    stripe_payloads(spec.input, k, m as int, data_size(spec.version)),
                ),
                data_size(spec.version) as nat,
            ),
    }
}

/// A data or parity block read back from its slot is the same block.
pub proof fn lemma_layout_round_trip(seq_num: int, data_par_burst: Option<(usize, usize, usize)>)
    requires
        seq_num >= 1,
        data_par_burst matches Some((m, n, b)) ==> m >= 1,
    ensures
        write_index(seq_num, data_par_burst) >= 1,
        seq_at_index(write_index(seq_num, data_par_burst), data_par_burst) == seq_num,
{
    if let Some((m, n, b)) = data_par_burst {
        lemma_seq_num_round_trip(seq_num, m as int, n as int, b as int);
    }
}

/// A slot that holds no metadata block is the slot of the block whose
/// sequence number it stands for.
pub proof fn lemma_layout_index_round_trip(index: int, data_par_burst: Option<(usize, usize, usize)>)
    requires
        index >= 0,
        data_par_burst matches Some((m, n, b)) ==> m >= 1,
        seq_at_index(index, data_par_burst) != 0,
    ensures
        seq_at_index(index, data_par_burst) >= 1,
        write_index(seq_at_index(index, data_par_burst), data_par_burst) == index,
{
    if let Some((m, n, b)) = data_par_burst {
        lemma_index_round_trip(index, m as int, n as int, b as int);
    }
}

/// The slot of every block up to `last` is below the slot count for `last`.
pub proof fn lemma_max_index(seq_num: int, last: int, data_par_burst: Option<(usize, usize, usize)>)
    requires
        1 <= seq_num <= last,
    ensures
        write_index(seq_num, data_par_burst) <= max_index(last, data_par_burst),
        last_meta_index(data_par_burst) <= max_index(last, data_par_burst),
    decreases last,
{
    lemma_max_index_meta(last, data_par_burst);
    if seq_num < last {
        lemma_max_index(seq_num, last - 1, data_par_burst);
    }
}

/// The slot of the last copy of the metadata block is below any slot count.
pub proof fn lemma_max_index_meta(last: int, data_par_burst: Option<(usize, usize, usize)>)
    ensures
        last_meta_index(data_par_burst) <= max_index(last, data_par_burst),
    decreases last,
{
    if last > 0 {
        lemma_max_index_meta(last - 1, data_par_burst);
    }
}

/// Chunk and sequence number of a data block determine each other.
pub proof fn lemma_chunk_seq(j: int, data_par_burst: Option<(usize, usize, usize)>)
    requires
        j >= 0,
        data_par_burst matches Some((m, n, b)) ==> m >= 1,
    ensures
        seq_of_chunk(j, data_par_burst) >= 1,
        seq_of_chunk(j, data_par_burst) >= j + 1,
        !is_parity_seq(seq_of_chunk(j, data_par_burst), data_par_burst),
        chunk_of_seq(seq_of_chunk(j, data_par_burst), data_par_burst) == j,
{
    if let Some((m, n, b)) = data_par_burst {
        let m = m as int;
        let t = m + n;
        let q = j / m;
        let r = j % m;
        vstd::arithmetic::div_mod::lemma_fundamental_div_mod(j, m);
        assert(0 <= r < m) by (nonlinear_arith)
            requires
                r == j % m,
                m >= 1,
        ;
        assert(0 <= q) by (nonlinear_arith)
            requires
                j == m * q + r,
                0 <= r < m,
                j >= 0,
                m >= 1,
        ;
        assert(q * t == t * q) by (nonlinear_arith);
        assert(q * t >= q * m && q * t >= 0 && q * m == m * q) by (nonlinear_arith)
            requires
                q >= 0,
                t >= m,
                m >= 1,
        ;
        vstd::arithmetic::div_mod::lemma_fundamental_div_mod_converse(q * t + r, t, q, r);
    }
}

/// A data block's sequence number is at most the last sequence number of
/// a container that has its chunk.
pub proof fn lemma_seq_of_chunk_bound(
    j: int,
    chunks: int,
    data_par_burst: Option<(usize, usize, usize)>,
)
    requires
        0 <= j < chunks,
        data_par_burst matches Some((m, n, b)) ==> m >= 1,
    ensures
        seq_of_chunk(j, data_par_burst) <= last_seq_num(chunks, data_par_burst),
{
    if let Some((m, n, b)) = data_par_burst {
        let m = m as int;
        let t = m + n;
        vstd::arithmetic::div_mod::lemma_fundamental_div_mod(j, m);
        vstd::arithmetic::div_mod::lemma_fundamental_div_mod(chunks, m);
        let q = j / m;
        let r = j % m;
        let cq = chunks / m;
        let cr = chunks % m;
        assert(0 <= r < m && 0 <= cr < m) by (nonlinear_arith)
            requires
                r == j % m,
                cr == chunks % m,
                m >= 1,
        ;
        assert(q * t + r + 1 <= cq * t + cr) by (nonlinear_arith)
            requires
                j == m * q + r,
                chunks == m * cq + cr,
                0 <= r < m,
                0 <= cr < m,
                j < chunks,
                t >= m,
                m >= 1,
        ;
    }
}

/// A container has at least as many sequence numbers as chunks.
pub proof fn lemma_last_seq_num_at_least(chunks: int, data_par_burst: Option<(usize, usize, usize)>)
    requires
        chunks >= 0,
        data_par_burst matches Some((m, n, b)) ==> m >= 1,
    ensures
        last_seq_num(chunks, data_par_burst) >= chunks,
{
    if let Some((m, n, b)) = data_par_burst {
        let mi = m as int;
        lemma_fundamental_div_mod(chunks, mi);
        assert(0 <= chunks % mi < mi) by (nonlinear_arith)
            requires
                mi >= 1,
        ;
        let q = chunks / mi;
        assert(q >= 0) by (nonlinear_arith)
            requires
                chunks == mi * q + chunks % mi,
                0 <= chunks % mi < mi,
                chunks >= 0,
                mi >= 1,
        ;
        assert(q * (mi + n) >= mi * q) by (nonlinear_arith)
            requires
                q >= 0,
                mi >= 1,
                n >= 0,
        ;
    }
}

/// Where a sequence number of a container lies in its stripe: a data shard
/// holds a chunk of the file, and a parity shard lies in a complete stripe.
pub proof fn lemma_seq_position(seq_num: int, chunks: int, m: int, n: int)
    requires
        m >= 1,
        n >= 0,
        chunks >= 0,
        1 <= seq_num <= (chunks / m) * (m + n) + chunks % m,
    ensures
        ({
            let stripe = (seq_num - 1) / (m + n);
            let within = (seq_num - 1) % (m + n);
            &&& 0 <= stripe <= chunks / m
            &&& 0 <= within < m + n
            &&& within < m ==> 0 <= stripe * m + within < chunks
            &&& within >= m ==> stripe < chunks / m
            &&& seq_num == stripe * (m + n) + within + 1
        }),
{
    let t = m + n;
    let d = seq_num - 1;
    let stripe = d / t;
    let within = d % t;
    let full = chunks / m;
    let tail = chunks % m;
    lemma_fundamental_div_mod(d, t);
    lemma_fundamental_div_mod(chunks, m);
    assert(0 <= within < t) by (nonlinear_arith)
        requires
            within == d % t,
            t >= 1,
    ;
    assert(0 <= tail < m) by (nonlinear_arith)
        requires
            tail == chunks % m,
            m >= 1,
    ;
    assert(0 <= stripe && stripe * t == t * stripe) by (nonlinear_arith)
        requires
            d == t * stripe + within,
            0 <= within < t,
            d >= 0,
    ;
    assert(stripe <= full) by (nonlinear_arith)
        requires
            d == t * stripe + within,
            d < full * t + tail,
            0 <= within,
            0 <= tail < m,
            m <= t,
    ;
    assert(stripe == full ==> within < tail) by (nonlinear_arith)
        requires
            d == t * stripe + within,
            d < full * t + tail,
    ;
    assert(within < m ==> 0 <= stripe * m + within < chunks) by (nonlinear_arith)
        requires
            chunks == m * full + tail,
            0 <= stripe <= full,
            stripe == full ==> within < tail,
            0 <= within,
            0 <= tail < m,
            m >= 1,
    ;
}

/// Number of data blocks that a file of `file_size` bytes is cut into.
pub fn calc_chunk_count_of(file_size: u64, version: Version) -> (r: u64)
    ensures
        r == chunk_count(file_size as int, version),
        r <= file_size,
        file_size <= r * data_size(version),
        r > 0 ==> (r - 1) * data_size(version) < file_size,
        r == 0 <==> file_size == 0,
{
    let size: u64 = ver_to_data_size(version) as u64;
    let q: u64 = file_size / size;
    let rem: u64 = file_size % size;
    proof {
        let d = size as int;
        let f = file_size as int;
        let qi = q as int;
        lemma_fundamental_div_mod(f, d);
        assert(d * qi == qi * d) by (nonlinear_arith);
        assert(qi <= f && (rem >= 1 ==> qi + 1 <= f)) by (nonlinear_arith)
            requires
                f == d * qi + rem,
                d >= 1,
                qi >= 0,
                rem >= 0,
        ;
        assert((qi + 1) * d == qi * d + d && (qi - 1) * d == qi * d - d) by (nonlinear_arith);
        assert((f == 0) == (qi == 0 && rem == 0)) by (nonlinear_arith)
            requires
                f == d * qi + rem,
                d >= 1,
                qi >= 0,
                rem >= 0,
        ;
        if rem == 0 {
            lemma_fundamental_div_mod_converse(f + d - 1, d, qi, d - 1);
        } else {
            lemma_fundamental_div_mod_converse(f + d - 1, d, qi + 1, rem - 1);
        }
    }
    if rem == 0 {
        q
    } else {
        q + 1
    }
}

/// Number of data blocks that a file of `len` bytes is cut into.
pub fn calc_chunk_count(len: usize, version: Version) -> (r: u64)
    ensures
        r == chunk_count(len as int, version),
        r <= len,
        len <= r * data_size(version),
        r > 0 ==> (r - 1) * data_size(version) < len,
{
    calc_chunk_count_of(len as u64, version)
}

/// The largest sequence number in a container of `chunks` data blocks.
pub fn calc_last_seq_num(chunks: u64, data_par_burst: Option<(usize, usize, usize)>) -> (r: u64)
    requires
        chunks <= u32::MAX,
        data_par_burst matches Some((m, n, b)) ==> 1 <= m && m + n <= 256,
    ensures
        r == last_seq_num(chunks as int, data_par_burst),
        chunks <= r <= chunks * 256,
{
    match data_par_burst {
        None => chunks,
        Some((m, n, _)) => {
            let m: u64 = m as u64;
            let t: u64 = m + n as u64;
            proof {
                let c = chunks as int;
                let mi = m as int;
                lemma_fundamental_div_mod(c, mi);
                assert(0 <= c % mi < mi) by (nonlinear_arith)
                    requires
                        mi >= 1,
                ;
                assert(0 <= c / mi <= c && (c / mi) * t <= c * 256 - (c % mi) * 256 && (c / mi)
                    * t + c % mi >= c && (c / mi) * t >= 0) by (nonlinear_arith)
                    requires
                        c == mi * (c / mi) + c % mi,
                        0 <= c % mi < mi,
                        c >= 0,
                        1 <= mi <= t <= 256,
                ;
            }
            (chunks / m) * t + chunks % m
        },
    }
}

/// Slot of the data or parity block `seq_num`.
pub fn calc_write_index(seq_num: u32, data_par_burst: Option<(usize, usize, usize)>) -> (r: u64)
    requires
        seq_num >= 1,
        data_par_burst matches Some((m, n, b)) ==> 1 <= m && m + n <= 256 && b <= MAX_BURST,
    ensures
        r == write_index(seq_num as int, data_par_burst),
{
    match data_par_burst {
        None => seq_num as u64,
        Some((m, n, b)) => {
            proof {
                assert((m + n) * b <= 256 * MAX_BURST) by (nonlinear_arith)
                    requires
                        0 <= m + n <= 256,
                        0 <= b <= MAX_BURST,
                ;
            }
            calc_rs_enabled_data_write_index(seq_num, m, n, b)
        },
    }
}

/// Sequence number of the block that belongs in slot `index`.
pub fn calc_seq_num_at_index(index: u64, data_par_burst: Option<(usize, usize, usize)>) -> (r: u64)
    requires
        index <= 0xFFFF_FFFF_FFFF,
        data_par_burst matches Some((m, n, b)) ==> 1 <= m && m + n <= 256 && b <= MAX_BURST,
    ensures
        r == seq_at_index(index as int, data_par_burst),
{
    match data_par_burst {
        None => index,
        Some((m, n, b)) => {
            proof {
                assert((m + n) * b <= 256 * MAX_BURST && (1 + n) * (1 + b) <= 256 * (1 + MAX_BURST))
                    by (nonlinear_arith)
                    requires
                        0 <= m + n <= 256,
                        0 <= n < 256,
                        0 <= b <= MAX_BURST,
                ;
                lemma_seq_num_at_index_bound(index as int, m as int, n as int, b as int);
            }
            calc_rs_enabled_seq_num_at_index_wide(index, m, n, b)
        },
    }
}

/// Largest slot among the metadata blocks and the blocks `1..=last`.
pub fn calc_max_index(last: u32, data_par_burst: Option<(usize, usize, usize)>) -> (r: u64)
    requires
        data_par_burst matches Some((m, n, b)) ==> 1 <= m && m + n <= 256 && b <= MAX_BURST,
    ensures
        r == max_index(last as int, data_par_burst),
{
    let mut max: u64 = match data_par_burst {
        None => 0,
        Some((_, n, b)) => {
            proof {
                assert(n * (1 + b) <= 256 * (1 + MAX_BURST)) by (nonlinear_arith)
                    requires
                        0 <= n <= 256,
                        0 <= b <= MAX_BURST,
                ;
            }
            n as u64 * (1 + b as u64)
        },
    };
    let mut seq_num: u32 = 0;
    while seq_num < last
        invariant
            seq_num <= last,
            data_par_burst matches Some((m, n, b)) ==> 1 <= m && m + n <= 256 && b <= MAX_BURST,
            max == max_index(seq_num as int, data_par_burst),
        decreases last - seq_num,
    {
        seq_num += 1;
        let index: u64 = calc_write_index(seq_num, data_par_burst);
        if index > max {
            max = index;
        }
    }
    max
}

/// The payload of the data block for chunk `j`.
pub fn make_chunk_payload(input: &[u8], j: usize, version: Version) -> (r: Vec<u8>)
    requires
        j * data_size(version) <= input@.len(),
    ensures
        r@ == chunk_payload(input@, j as int, data_size(version)),
        r@.len() == data_size(version),
{
    let size: usize = ver_to_data_size(version);
    let len: usize = input.len();
    proof {
        assert(j * size == j * data_size(version));
    }
    let from: usize = j * size;
    let to: usize = if len - from >= size {
        from + size
    } else {
        len
    };
    let mut r: Vec<u8> = crate::buffer::copy_range_to_vec(input, from, to);
    append_repeated(&mut r, 0, size - (to - from));
    r
}

/// The bytes of the data or parity block `seq_num` with the payload given.
pub fn make_block_bytes(version: Version, uid: &[u8; 6], seq_num: u32, payload: &[u8]) -> (r: Vec<u8>)
    requires
        seq_num >= 1,
        payload@.len() == data_size(version),
    ensures
        r@ == block_bytes(version, uid@, seq_num, payload@),
        r@.len() == block_size(version),
{
    let size: usize = ver_to_block_size(version);
    let mut buffer: Vec<u8> = zeros(size);
    copy_into(buffer.as_mut_slice(), SBX_HEADER_SIZE, payload);
    let mut block: Block = Block::new(version, uid, BlockType::Data);
    block.set_seq_num(seq_num);
    let ghost before = buffer@;
    assert(before.subrange(16, size as int) =~= payload@);
    match block.sync_to_buffer(None, buffer.as_mut_slice()) {
        Ok(()) => {},
        Err(_) => {
            assert(false);
        },
    }
    proof {
        crate::sbx_block::header::lemma_header_round_trip(block@.header);
        assert(before.skip(size as int) =~= Seq::<u8>::empty());
        assert(buffer@ =~= block_bytes(version, uid@, seq_num, payload@));
    }
    buffer
}

/// The bytes of the metadata block with the records given, where they fit.
pub fn make_meta_block_bytes(version: Version, uid: &[u8; 6], records: &[Metadata]) -> (r: Option<Vec<u8>>)
    ensures
        (r is Some) == records_fit(views(records@), data_size(version) as nat),
        r matches Some(bytes) ==> bytes@ == meta_block_bytes(version, uid@, views(records@))
            && bytes@.len() == block_size(version),
{
    let size: usize = ver_to_block_size(version);
    let mut buffer: Vec<u8> = zeros(size);
    let mut block: Block = Block::new(version, uid, BlockType::Meta);
    let ghost shown = views(records@);
    match block.meta_mut() {
        Ok(meta) => {
            *meta = crate::sbx_block::metadata::clone_metadata_list(records);
        },
        Err(_) => {},
    }
    assert(block@.data == DataView::Meta(shown));
    assert(block@.header.seq_num == 0);
    let ghost before = buffer@;
    match block.sync_to_buffer(None, buffer.as_mut_slice()) {
        Ok(()) => {
            proof {
                crate::sbx_block::header::lemma_header_round_trip(block@.header);
                assert(before.skip(size as int) =~= Seq::<u8>::empty());
                assert(buffer@ =~= meta_block_bytes(version, uid@, shown));
            }
            Some(buffer)
        },
        Err(_) => None,
    }
}

/// Whether slot `index` lies whole within `len` bytes.
pub fn slot_in_bounds(len: usize, index: u64, block_size: usize) -> (r: bool)
    requires
        block_size >= 1,
    ensures
        r == ((index + 1) * block_size <= len),
        r ==> index * block_size + block_size <= len && index * block_size >= 0,
{
    proof {
        let l = len as int;
        let size = block_size as int;
        let i = index as int;
        let q = l / size;
        let rem = l % size;
        lemma_fundamental_div_mod(l, size);
        assert(0 <= rem < size) by (nonlinear_arith)
            requires
                rem == l % size,
                size >= 1,
        ;
        assert(i >= q ==> (i + 1) * size > l) by (nonlinear_arith)
            requires
                l == size * q + rem,
                0 <= rem < size,
                size >= 1,
        ;
        assert(0 <= i < q ==> (i + 1) * size <= l && i * size + size <= l && i * size >= 0)
            by (nonlinear_arith)
            requires
                l == size * q + rem,
                0 <= rem < size,
                size >= 1,
        ;
    }
    index < (len / block_size) as u64
}

/// Number of blocks of a container for a file of `file_size` bytes, without
/// the slots that the interleaving leaves empty: the metadata block with its
/// copies, the data blocks and the parity blocks; held at the largest number
/// that can be counted.
pub open spec fn total_block_count(
    version: Version,
    data_par_burst: Option<(usize, usize, usize)>,
    file_size: int,
) -> int {
    let meta = match data_par_burst {
        None => 1,
        Some((m, n, b)) => 1 + n,
    };
    let all = meta + last_seq_num(chunk_count(file_size, version), data_par_burst);
    if all > u64::MAX {
        u64::MAX as int
    } else {
        all
    }
}

/// Number of blocks in a container for a file of `file_size` bytes, the gaps
/// that interleaving leaves not counted; `u64::MAX` where it would not fit.
pub fn calc_total_block_count_exc_burst_gaps(
    version: Version,
    data_par_burst: Option<(usize, usize, usize)>,
    file_size: u64,
) -> (r: u64)
    requires
        data_par_burst matches Some((m, n, b)) ==> 1 <= m && m + n <= 256,
    ensures
        r == total_block_count(version, data_par_burst, file_size as int),
{
    let chunks: u64 = calc_chunk_count_of(file_size, version);
    let (meta, blocks): (u128, u128) = match data_par_burst {
        None => (1, chunks as u128),
        Some((m, n, _)) => {
            let m: u128 = m as u128;
            let t: u128 = m + n as u128;
            let c: u128 = chunks as u128;
            proof {
                let ci = chunks as int;
                let mi = m as int;
                lemma_fundamental_div_mod(ci, mi);
                assert(0 <= ci % mi < mi) by (nonlinear_arith)
                    requires
                        mi >= 1,
                ;
                assert(0 <= ci / mi <= ci && 0 <= (ci / mi) * t <= ci * 256) by (nonlinear_arith)
                    requires
                        ci == mi * (ci / mi) + ci % mi,
                        0 <= ci % mi < mi,
                        ci >= 0,
                        1 <= mi <= t <= 256,
                ;
            }
            (1 + n as u128, (c / m) * t + c % m)
        },
    };
    let all: u128 = meta + blocks;
    if all > u64::MAX as u128 {
        u64::MAX
    } else {
        all as u64
    }
}

} // verus!
