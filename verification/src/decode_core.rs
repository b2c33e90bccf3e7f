//! Decoding: the stored file is read back out of a container held in memory.
//!
//! The data blocks are visited in the order of their chunks. Each must lie
//! whole in its slot, parse, carry the version and file UID of the reference
//! block and the sequence number of its slot; the first that does not ends
//! the decoding with an error. Parity shards are passed over: mending a
//! container is the work of the repair.

use vstd::prelude::*;
use vstd::arithmetic::div_mod::lemma_fundamental_div_mod;
use crate::block_utils::ContainerParams;
use crate::block_utils::RefBlockChoice;
use crate::block_utils::container_params;
use crate::block_utils::find_container_params;
use crate::buffer::append_bytes;
use crate::buffer::bytes_equal;
use crate::container::chunk_count;
use crate::container::last_seq_num;
use crate::container::layout_valid;
use crate::container::lemma_chunk_seq;
use crate::container::lemma_last_seq_num_at_least;
use crate::container::lemma_layout_round_trip;
use crate::container::lemma_seq_of_chunk_bound;
use crate::container::seq_of_chunk;
use crate::container::slot_of;
use crate::container::write_index;
use crate::container::calc_write_index;
use crate::general_error::Error;
use crate::general_error::ErrorKind;
use crate::multihash::HashBytes;
use crate::sbx_block::Block;
use crate::sbx_block::BlockView;
use crate::sbx_block::DataView;
use crate::sbx_block::parse_block;
use crate::sbx_block::metadata::MetadataID;
use crate::sbx_block::metadata::MetadataView;
use crate::sbx_block::metadata::first_with_id;
use crate::sbx_specs::Version;
use crate::sbx_specs::SBX_HEADER_SIZE;
use crate::sbx_specs::block_size;
use crate::sbx_specs::data_size;
use crate::sbx_specs::ver_to_block_size;
use crate::sbx_specs::ver_to_data_size;

verus! {

/// Counts of the blocks that a decode has seen, by what became of each.
#[derive(Clone, Copy, Debug, PartialEq, Eq, Structural)]
pub struct Stats {
    pub version: Version,
    pub data_blocks_decoded: u64,
    pub data_bytes_decoded: u64,
}

/// Whether the data block `seq_num` lies whole in its slot of `c`, parses,
/// and is a block of the container: version, file UID and sequence number
/// are the ones expected.
pub open spec fn data_block_ok(
    c: Seq<u8>,
    version: Version,
    uid: Seq<u8>,
    data_par_burst: Option<(usize, usize, usize)>,
    seq_num: int,
) -> bool {
    let index = write_index(seq_num, data_par_burst);
    &&& (index + 1) * block_size(version) <= c.len()
    &&& parse_block(slot_of(c, index, version)) matches Ok(b) && b.header.version == version
        && b.header.uid == uid && b.header.seq_num == seq_num
}

/// The payload in the slot of the data block for chunk `j`.
pub open spec fn chunk_in_container(
    c: Seq<u8>,
    version: Version,
    data_par_burst: Option<(usize, usize, usize)>,
    j: int,
) -> Seq<u8> {
    let index = write_index(seq_of_chunk(j, data_par_burst), data_par_burst);
    slot_of(c, index, version).subrange(16, block_size(version))
}

/// The payloads of the data blocks for the chunks `0..k`, one after the other.
pub open spec fn chunks_in_container(
    c: Seq<u8>,
    version: Version,
    data_par_burst: Option<(usize, usize, usize)>,
    k: int,
) -> Seq<u8>
    decreases k,
{
    if k <= 0 {
        Seq::empty()
    } else {
        chunks_in_container(c, version, data_par_burst, k - 1) + chunk_in_container(
            c,
            version,
            data_par_burst,
            k - 1,
        )
    }
}

/// The first chunk among `0..k` whose data block cannot be used.
pub open spec fn first_bad_chunk(
    c: Seq<u8>,
    version: Version,
    uid: Seq<u8>,
    data_par_burst: Option<(usize, usize, usize)>,
    k: int,
) -> Option<int>
    decreases k,
{
    if k <= 0 {
        None
    } else {
        match first_bad_chunk(c, version, uid, data_par_burst, k - 1) {
            Some(j) => Some(j),
            None => if data_block_ok(
                c,
                version,
                uid,
                data_par_burst,
                seq_of_chunk(k - 1, data_par_burst),
            ) {
                None
            } else {
                Some(k - 1)
            },
        }
    }
}

/// What decoding a container gives: the first `file_size` bytes of the
/// payloads of its data blocks, or the sequence number of the first data
/// block that cannot be used.
pub open spec fn decode_result(
    c: Seq<u8>,
    version: Version,
    uid: Seq<u8>,
    data_par_burst: Option<(usize, usize, usize)>,
    file_size: int,
) -> Result<Seq<u8>, ErrorKind> {
    let chunks = chunk_count(file_size, version);
    if last_seq_num(chunks, data_par_burst) > u32::MAX {
        Err(ErrorKind::SeqNumOverflow)
    } else {
        match first_bad_chunk(c, version, uid, data_par_burst, chunks) {
            Some(j) => Err(ErrorKind::DecodeFail(seq_of_chunk(j, data_par_burst) as u32)),
            None => Ok(
                chunks_in_container(c, version, data_par_burst, chunks).subrange(0, file_size),
            ),
        }
    }
}

/// The chunks of a container hold as many bytes as there are chunks.
pub proof fn lemma_chunks_len(
    c: Seq<u8>,
    version: Version,
    uid: Seq<u8>,
    data_par_burst: Option<(usize, usize, usize)>,
    k: int,
)
    requires
        k >= 0,
        first_bad_chunk(c, version, uid, data_par_burst, k) is None,
        data_par_burst matches Some((m, n, b)) ==> m >= 1,
    ensures
        chunks_in_container(c, version, data_par_burst, k).len() == k * data_size(version),
    decreases k,
{
    if k > 0 {
        lemma_chunks_len(c, version, uid, data_par_burst, k - 1);
        let seq_num = seq_of_chunk(k - 1, data_par_burst);
        lemma_chunk_seq(k - 1, data_par_burst);
        lemma_layout_round_trip(seq_num, data_par_burst);
        let index = write_index(seq_num, data_par_burst);
        let size = block_size(version);
        assert(data_block_ok(c, version, uid, data_par_burst, seq_num));
        assert(index * size >= 0 && (index + 1) * size == index * size + size)
            by (nonlinear_arith)
            requires
                index >= 0,
                size >= 0,
        ;
        assert(slot_of(c, index, version).len() == size);
        assert(chunk_in_container(c, version, data_par_burst, k - 1).len() == data_size(
            version,
        ));
        assert(chunks_in_container(c, version, data_par_burst, k) == chunks_in_container(
            c,
            version,
            data_par_burst,
            k - 1,
        ) + chunk_in_container(c, version, data_par_burst, k - 1));
        assert(k * data_size(version) == (k - 1) * data_size(version) + data_size(version))
            by (nonlinear_arith);
    } else {
        assert(k * data_size(version) == 0) by (nonlinear_arith)
            requires
                k == 0,
        ;
    }
}

/// Looks for the data block `seq_num` in its slot of the container, and
/// gives the byte offset of the slot where the block can be used.
pub fn find_data_block(
    container: &[u8],
    version: Version,
    uid: &[u8; 6],
    data_par_burst: Option<(usize, usize, usize)>,
    seq_num: u32,
    block: &mut Block,
) -> (r: Option<usize>)
    requires
        seq_num >= 1,
        layout_valid(version, data_par_burst),
    ensures
        match r {
            Some(pos) => data_block_ok(container@, version, uid@, data_par_burst, seq_num as int)
                && pos == write_index(seq_num as int, data_par_burst) * block_size(version) && pos
                + block_size(version) <= container@.len() && container@.subrange(
                pos as int,
                pos + block_size(version),
            ) == slot_of(container@, write_index(seq_num as int, data_par_burst), version)
                && parse_block(
                slot_of(container@, write_index(seq_num as int, data_par_burst), version),
            ) == Ok::<BlockView, crate::sbx_block::Error>(final(block)@) && final(block).wf(),
            None => !data_block_ok(container@, version, uid@, data_par_burst, seq_num as int),
        },
{
    let block_size: usize = ver_to_block_size(version);
    let len: usize = container.len();
    let index: u64 = calc_write_index(seq_num, data_par_burst);
    if !crate::container::slot_in_bounds(len, index, block_size) {
        return None;
    }
    proof {
        assert((index + 1) * block_size == index * block_size + block_size) by (nonlinear_arith);
    }
    let pos: usize = index as usize * block_size;
    let window: &[u8] = &container[pos..pos + block_size];
    match block.sync_from_buffer_checked(window) {
        Ok(()) => {
            if block.get_version() == version && bytes_equal(
                block.get_uid().as_slice(),
                uid.as_slice(),
            ) && block.get_seq_num() == seq_num {
                Some(pos)
            } else {
                None
            }
        },
        Err(_) => None,
    }
}

/// Reads the stored file out of a container: the chunks in order, cut off
/// at the file size.
#[verifier::rlimit(50)]
pub fn decode(
    container: &[u8],
    version: Version,
    uid: &[u8; 6],
    data_par_burst: Option<(usize, usize, usize)>,
    file_size: u64,
) -> (r: Result<(Vec<u8>, Stats), Error>)
    requires
        layout_valid(version, data_par_burst),
    ensures
        match r {
            Ok((data, stats)) => decode_result(
                container@,
                version,
                uid@,
                data_par_burst,
                file_size as int,
            ) == Ok::<Seq<u8>, ErrorKind>(data@) && stats == (Stats {
                version,
                data_blocks_decoded: chunk_count(file_size as int, version) as u64,
                data_bytes_decoded: file_size,
            }),
            Err(e) => decode_result(container@, version, uid@, data_par_burst, file_size as int)
                == Err::<Seq<u8>, ErrorKind>(e.kind),
        },
{
    let data_size: u64 = ver_to_data_size(version) as u64;
    let chunks: u64 = crate::container::calc_chunk_count_of(file_size, version);
    if chunks > 0xFFFF_FFFF {
        proof {
            lemma_last_seq_num_at_least(chunks as int, data_par_burst);
        }
        return Err(Error::new(ErrorKind::SeqNumOverflow));
    }
    let last: u64 = crate::container::calc_last_seq_num(chunks, data_par_burst);
    if last > 0xFFFF_FFFF {
        return Err(Error::new(ErrorKind::SeqNumOverflow));
    }
    let len: usize = container.len();
    let mut block: Block = Block::dummy();
    let mut data: Vec<u8> = Vec::new();
    let mut j: u64 = 0;
    while j < chunks
        invariant
            j <= chunks,
            chunks == chunk_count(file_size as int, version),
            chunks <= u32::MAX,
            last_seq_num(chunks as int, data_par_burst) <= u32::MAX,
            layout_valid(version, data_par_burst),
            data_size == crate::sbx_specs::data_size(version),
            chunks > 0 ==> (chunks - 1) * data_size < file_size,
            file_size <= chunks * data_size,
            len == container@.len(),
            first_bad_chunk(container@, version, uid@, data_par_burst, j as int) is None,
            data@ == decoded_upto(container@, version, data_par_burst, j as int, file_size as int),
        decreases chunks - j,
    {
        proof {
            lemma_chunk_seq(j as int, data_par_burst);
            lemma_seq_of_chunk_bound(j as int, chunks as int, data_par_burst);
            assert(j * data_size <= (chunks - 1) * data_size) by (nonlinear_arith)
                requires
                    0 <= j <= chunks - 1,
                    data_size >= 0,
            ;
        }
        let seq_num: u32 = calc_seq_of_chunk(j, data_par_burst);
        let pos: usize = match find_data_block(
            container,
            version,
            uid,
            data_par_burst,
            seq_num,
            &mut block,
        ) {
            Some(pos) => pos,
            None => {
                proof {
                    lemma_first_bad_chunk_stays(
                        container@,
                        version,
                        uid@,
                        data_par_burst,
                        j as int,
                        chunks as int,
                    );
                }
                return Err(Error::new(ErrorKind::DecodeFail(seq_num)));
            },
        };
        let written: u64 = j * data_size;
        let left: u64 = file_size - written;
        let take: usize = if left < data_size {
            left as usize
        } else {
            data_size as usize
        };
        let from: usize = pos + SBX_HEADER_SIZE;
        proof {
            lemma_decoded_step(
                container@,
                version,
                uid@,
                data_par_burst,
                j as int,
                file_size as int,
            );
            let this = chunk_in_container(container@, version, data_par_burst, j as int);
            assert(container@.subrange(from as int, from + take) =~= this.subrange(0, take as int));
        }
        append_bytes(&mut data, &container[from..from + take]);
        j += 1;
    }
    proof {
        lemma_chunks_len(container@, version, uid@, data_par_burst, chunks as int);
        let all = chunks_in_container(container@, version, data_par_burst, chunks as int);
        assert(all.len() <= file_size ==> all.subrange(0, file_size as int) =~= all);
    }
    Ok((data, Stats { version, data_blocks_decoded: chunks, data_bytes_decoded: file_size }))
}

/// Once a chunk is found whose data block cannot be used, it stays the first.
pub proof fn lemma_first_bad_chunk_stays(
    c: Seq<u8>,
    version: Version,
    uid: Seq<u8>,
    data_par_burst: Option<(usize, usize, usize)>,
    j: int,
    k: int,
)
    requires
        0 <= j < k,
        first_bad_chunk(c, version, uid, data_par_burst, j) is None,
        !data_block_ok(c, version, uid, data_par_burst, seq_of_chunk(j, data_par_burst)),
    ensures
        first_bad_chunk(c, version, uid, data_par_burst, k) == Some(j),
    decreases k,
{
    if k > j + 1 {
        lemma_first_bad_chunk_stays(c, version, uid, data_par_burst, j, k - 1);
    }
}

/// Reading one more chunk appends its payload, cut off where the file ends.
pub proof fn lemma_decoded_step(
    c: Seq<u8>,
    version: Version,
    uid: Seq<u8>,
    data_par_burst: Option<(usize, usize, usize)>,
    j: int,
    file_size: int,
)
    requires
        j >= 0,
        j * data_size(version) <= file_size,
        first_bad_chunk(c, version, uid, data_par_burst, j + 1) is None,
        data_par_burst matches Some((m, n, b)) ==> m >= 1,
    ensures
        ({
            let left = file_size - j * data_size(version);
            let take = if left < data_size(version) {
                left
            } else {
                data_size(version)
            };
            &&& chunk_in_container(c, version, data_par_burst, j).len() == data_size(version)
            &&& decoded_upto(c, version, data_par_burst, j + 1, file_size) == decoded_upto(
                c,
                version,
                data_par_burst,
                j,
                file_size,
            ) + chunk_in_container(c, version, data_par_burst, j).subrange(0, take)
        }),
{
    lemma_chunks_len(c, version, uid, data_par_burst, j);
    lemma_chunks_len(c, version, uid, data_par_burst, j + 1);
    let before = chunks_in_container(c, version, data_par_burst, j);
    let this = chunk_in_container(c, version, data_par_burst, j);
    let all = chunks_in_container(c, version, data_par_burst, j + 1);
    assert(all == before + this);
    assert((j + 1) * data_size(version) == j * data_size(version) + data_size(version))
        by (nonlinear_arith);
    let left = file_size - j * data_size(version);
    let take = if left < data_size(version) {
        left
    } else {
        data_size(version)
    };
    assert(decoded_upto(c, version, data_par_burst, j + 1, file_size) =~= before + this.subrange(
        0,
        take,
    ));
}

/// What has been read out after `k` chunks: all of them, but no more than
/// the file size.
pub open spec fn decoded_upto(
    c: Seq<u8>,
    version: Version,
    data_par_burst: Option<(usize, usize, usize)>,
    k: int,
    file_size: int,
) -> Seq<u8> {
    let all = chunks_in_container(c, version, data_par_burst, k);
    if all.len() <= file_size {
        all
    } else {
        all.subrange(0, file_size)
    }
}

/// Sequence number of the data block that holds chunk `j`.
pub fn calc_seq_of_chunk(j: u64, data_par_burst: Option<(usize, usize, usize)>) -> (r: u32)
    requires
        seq_of_chunk(j as int, data_par_burst) <= u32::MAX,
        j <= u32::MAX,
        data_par_burst matches Some((m, n, b)) ==> 1 <= m && m + n <= 256,
    ensures
        r == seq_of_chunk(j as int, data_par_burst),
{
    match data_par_burst {
        None => (j + 1) as u32,
        Some((m, n, _)) => {
            let m: u64 = m as u64;
            let t: u64 = m + n as u64;
            proof {
                lemma_fundamental_div_mod(j as int, m as int);
                assert(0 <= j % m < m) by (nonlinear_arith)
                    requires
                        m >= 1,
                ;
                assert(0 <= j / m <= j && 0 <= (j / m) * t <= j * 256) by (nonlinear_arith)
                    requires
                        j == m * (j / m) + j % m,
                        0 <= j % m < m,
                        1 <= m <= t <= 256,
                        j >= 0,
                ;
            }
            ((j / m) * t + j % m + 1) as u32
        },
    }
}

/// What decoding a container gives: the stored file, with the name and the
/// hash that the reference block has on record for it.
#[derive(Debug)]
pub struct Decoded {
    pub data: Vec<u8>,
    pub stats: Stats,
    pub file_name: Option<Vec<u8>>,
    pub recorded_hash: Option<HashBytes>,
}

/// The file size that a metadata block records, if it records one.
pub open spec fn recorded_file_size(ref_block: BlockView) -> Option<u64> {
    match ref_block.data {
        DataView::Data => None,
        DataView::Meta(ms) => match first_with_id(ms, MetadataID::FSZ) {
            None => None,
            Some(i) => Some(ms[i]->FSZ_0),
        },
    }
}

/// What decoding a container by its own reference block gives: the file, or
/// why there is none. The reference block must be a metadata block that
/// records the file size.
pub open spec fn decode_file_result(c: Seq<u8>, choice: RefBlockChoice, burst: Option<usize>) -> Result<
    Seq<u8>,
    ErrorKind,
> {
    match container_params(c, choice, burst) {
        Err(kind) => Err(kind),
        Ok((pos, ref_block, data_par_burst)) => if ref_block.data is Data {
            Err(ErrorKind::ReferenceNotMeta)
        } else {
            match recorded_file_size(ref_block) {
                None => Err(ErrorKind::MissingFileSize),
                Some(file_size) => decode_result(
                    c,
                    ref_block.header.version,
                    ref_block.header.uid,
                    data_par_burst,
                    file_size as int,
                ),
            }
        },
    }
}

/// Decodes a container by its own reference block.
pub fn decode_file(container: &[u8], choice: RefBlockChoice, burst: Option<usize>) -> (r: Result<
    Decoded,
    Error,
>)
    ensures
        match r {
            Ok(decoded) => {
                let ref_block = (container_params(container@, choice, burst)->Ok_0).1;
                let ms = ref_block.data->Meta_0;
                &&& decode_file_result(container@, choice, burst) == Ok::<Seq<u8>, ErrorKind>(
                    decoded.data@,
                )
                &&& decoded.stats == (Stats {
                    version: ref_block.header.version,
                    data_blocks_decoded: chunk_count(
                        recorded_file_size(ref_block)->0 as int,
                        ref_block.header.version,
                    ) as u64,
                    data_bytes_decoded: recorded_file_size(ref_block)->0,
                })
                &&& match decoded.file_name {
                    Some(name) => first_with_id(ms, MetadataID::FNM) is Some && ms[first_with_id(
                        ms,
                        MetadataID::FNM,
                    )->0] == MetadataView::FNM(name@),
                    None => first_with_id(ms, MetadataID::FNM) is None,
                }
                &&& match decoded.recorded_hash {
                    Some(hash) => first_with_id(ms, MetadataID::HSH) is Some && ms[first_with_id(
                        ms,
                        MetadataID::HSH,
                    )->0] == MetadataView::HSH(hash.0, hash.1@),
                    None => first_with_id(ms, MetadataID::HSH) is None,
                }
            },
            Err(e) => decode_file_result(container@, choice, burst) == Err::<Seq<u8>, ErrorKind>(
                e.kind,
            ),
        },
{
    let params: ContainerParams = match find_container_params(container, choice, burst) {
        Ok(p) => p,
        Err(e) => {
            return Err(e);
        },
    };
    if params.ref_block.is_data() {
        return Err(Error::new(ErrorKind::ReferenceNotMeta));
    }
    let file_size: u64 = match params.ref_block.get_FSZ() {
        Ok(Some(x)) => x,
        _ => {
            return Err(Error::new(ErrorKind::MissingFileSize));
        },
    };
    let file_name: Option<Vec<u8>> = match params.ref_block.get_FNM() {
        Ok(x) => x,
        Err(_) => None,
    };
    let recorded_hash: Option<HashBytes> = match params.ref_block.get_HSH() {
        Ok(x) => x,
        Err(_) => None,
    };
    let uid: [u8; 6] = params.ref_block.get_uid();
    match decode(
        container,
        params.ref_block.get_version(),
        &uid,
        params.data_par_burst,
        file_size,
    ) {
        Ok((data, stats)) => Ok(Decoded { data, stats, file_name, recorded_hash }),
        Err(e) => Err(e),
    }
}

} // verus!
