//! Encoding: a file, held in memory, becomes a container.
//!
//! The container is built slot by slot: each slot is given the block that
//! the layout puts there, so that the result is the container laid out in
//! full, with zeros in the slots that no block takes.

use vstd::prelude::*;
use vstd::arithmetic::div_mod::lemma_fundamental_div_mod;
use crate::buffer::append_bytes;
use crate::buffer::clone_bytes;
use crate::buffer::zeros;
use crate::container::ContainerSpec;
use crate::container::MAX_BURST;
use crate::container::calc_chunk_count;
use crate::container::calc_last_seq_num;
use crate::container::calc_max_index;
use crate::container::calc_seq_num_at_index;
use crate::container::chunk_count;
use crate::container::chunk_payload;
use crate::container::is_container_of;
use crate::container::last_seq_num;
use crate::container::lemma_last_seq_num_at_least;
use crate::container::lemma_seq_position;
use crate::container::layout_valid;
use crate::container::make_block_bytes;
use crate::container::make_chunk_payload;
use crate::container::make_meta_block_bytes;
use crate::container::max_index;
use crate::container::slot_bytes;
use crate::container::slot_count;
use crate::container::slot_of;
use crate::container::stripe_payloads;
use crate::general_error::Error;
use crate::general_error::ErrorKind;
use crate::multihash::HashBytes;
use crate::multihash::HashType;
use crate::multihash::clone_hash_bytes;
use crate::rs_codec::RSCodec;
use crate::rs_codec::rs_codec_encode;
use crate::rs_codec::rs_codec_new;
use crate::rs_codec::rs_data_shards;
use crate::rs_codec::rs_parity;
use crate::rs_codec::rs_parity_shards;
use crate::rs_codec::shards_have_len;
use crate::rs_codec::shards_view;
use crate::sbx_block::Metadata;
use crate::sbx_block::metadata::MetadataView;
use crate::sbx_block::metadata::records_fit;
use crate::sbx_block::metadata::views;
use crate::sbx_specs::Version;
use crate::sbx_specs::SBX_FILE_UID_LEN;
use crate::sbx_specs::block_size;
use crate::sbx_specs::data_size;
use crate::sbx_specs::uses_rs;
use crate::sbx_specs::ver_to_block_size;
use crate::sbx_specs::ver_to_data_size;
use crate::sbx_specs::ver_uses_rs;

verus! {

/// What a container is to be made with.
#[derive(Debug)]
pub struct Param {
    pub version: Version,
    pub uid: [u8; SBX_FILE_UID_LEN],
    /// Data shards, parity shards and burst resistance level, for a version
    /// with Reed-Solomon.
    pub data_par_burst: Option<(usize, usize, usize)>,
    pub file_name: Option<Vec<u8>>,
    pub sbx_name: Option<Vec<u8>>,
    pub file_mtime: Option<i64>,
    pub container_ctime: Option<i64>,
    pub hash: Option<HashBytes>,
}

/// The parameters as plain values.
pub struct ParamView {
    pub version: Version,
    pub uid: Seq<u8>,
    pub data_par_burst: Option<(usize, usize, usize)>,
    pub file_name: Option<Seq<u8>>,
    pub sbx_name: Option<Seq<u8>>,
    pub file_mtime: Option<i64>,
    pub container_ctime: Option<i64>,
    pub hash: Option<(HashType, Seq<u8>)>,
}

impl View for Param {
    type V = ParamView;

    open spec fn view(&self) -> ParamView {
        ParamView {
            version: self.version,
            uid: self.uid@,
            data_par_burst: self.data_par_burst,
            file_name: match self.file_name {
                Some(x) => Some(x@),
                None => None,
            },
            sbx_name: match self.sbx_name {
                Some(x) => Some(x@),
                None => None,
            },
            file_mtime: self.file_mtime,
            container_ctime: self.container_ctime,
            hash: match self.hash {
                Some(h) => Some((h.0, h.1@)),
                None => None,
            },
        }
    }
}

/// Counts of the blocks and bytes that an encode has written.
#[derive(Clone, Copy, Debug, PartialEq, Eq, Structural)]
pub struct Stats {
    pub sbx_version: Version,
    pub meta_blocks_written: u64,
    pub data_blocks_written: u64,
    pub parity_blocks_written: u64,
    pub data_bytes_encoded: u64,
    pub data_shards: usize,
    pub parity_shards: usize,
}

impl Stats {
    /// Counts at the start of an encode to `version`, all zero.
    pub fn new(version: Version) -> (r: Stats)
        ensures
            r == (Stats {
                sbx_version: version,
                meta_blocks_written: 0,
                data_blocks_written: 0,
                parity_blocks_written: 0,
                data_bytes_encoded: 0,
                data_shards: 0,
                parity_shards: 0,
            }),
    {
        Stats {
            sbx_version: version,
            meta_blocks_written: 0,
            data_blocks_written: 0,
            parity_blocks_written: 0,
            data_bytes_encoded: 0,
            data_shards: 0,
            parity_shards: 0,
        }
    }
}

/// One record, where it is given.
pub open spec fn optional_record(record: Option<MetadataView>) -> Seq<MetadataView> {
    match record {
        Some(m) => seq![m],
        None => Seq::empty(),
    }
}

/// The records of the metadata block: file name, container name, file size,
/// file time, container time, hash, and the Reed-Solomon shard counts, each
/// where it is known, in this order.
pub open spec fn param_records(p: ParamView, len: nat) -> Seq<MetadataView> {
    optional_record(
        match p.file_name {
            Some(x) => Some(MetadataView::FNM(x)),
            None => None,
        },
    ) + optional_record(
        match p.sbx_name {
            Some(x) => Some(MetadataView::SNM(x)),
            None => None,
        },
    ) + seq![MetadataView::FSZ(len as u64)] + optional_record(
        match p.file_mtime {
            Some(x) => Some(MetadataView::FDT(x)),
            None => None,
        },
    ) + optional_record(
        match p.container_ctime {
            Some(x) => Some(MetadataView::SDT(x)),
            None => None,
        },
    ) + optional_record(
        match p.hash {
            Some(h) => Some(MetadataView::HSH(h.0, h.1)),
            None => None,
        },
    ) + (match p.data_par_burst {
        Some((m, n, b)) => seq![MetadataView::RSD(m as u8), MetadataView::RSP(n as u8)],
        None => Seq::empty(),
    })
}

/// What the container of `input` under `p` is made from.
pub open spec fn container_spec(input: Seq<u8>, p: ParamView) -> ContainerSpec {
    ContainerSpec {
        version: p.version,
        uid: p.uid,
        data_par_burst: p.data_par_burst,
        records: param_records(p, input.len()),
        input,
    }
}

/// Whether the Reed-Solomon parameters are ones that go with the version.
pub open spec fn rs_params_valid(version: Version, data_par_burst: Option<(usize, usize, usize)>) -> bool {
    match data_par_burst {
        None => !uses_rs(version),
        Some((m, n, b)) => uses_rs(version) && 1 <= m && 1 <= n && m + n <= 256,
    }
}

/// Why no container can be made of `len` bytes under `p`, if that is so: the
/// first of the reasons that holds, in the order given here.
pub open spec fn encode_error(len: nat, p: ParamView) -> Option<ErrorKind> {
    let chunks = chunk_count(len as int, p.version);
    if !rs_params_valid(p.version, p.data_par_burst) {
        Some(ErrorKind::RSCodecCreateFail)
    } else if p.data_par_burst matches Some((m, n, b)) && b > MAX_BURST {
        Some(ErrorKind::BurstTooLarge)
    } else if !records_fit(param_records(p, len), data_size(p.version) as nat) {
        Some(ErrorKind::BlockError(crate::sbx_block::Error::TooMuchMetaData))
    } else if last_seq_num(chunks, p.data_par_burst) > u32::MAX {
        Some(ErrorKind::SeqNumOverflow)
    } else if slot_count(chunks, p.data_par_burst) * block_size(p.version) > usize::MAX {
        Some(ErrorKind::ContainerTooLarge)
    } else {
        None
    }
}

/// The counts that go with a container of `len` bytes under `p`.
pub open spec fn encode_stats(len: nat, p: ParamView) -> Stats {
    let chunks = chunk_count(len as int, p.version);
    match p.data_par_burst {
        None => Stats {
            sbx_version: p.version,
            meta_blocks_written: 1,
            data_blocks_written: chunks as u64,
            parity_blocks_written: 0,
            data_bytes_encoded: len as u64,
            data_shards: 0,
            parity_shards: 0,
        },
        Some((m, n, b)) => Stats {
            sbx_version: p.version,
            meta_blocks_written: (1 + n) as u64,
            data_blocks_written: chunks as u64,
            parity_blocks_written: ((chunks / (m as int)) * n) as u64,
            data_bytes_encoded: len as u64,
            data_shards: m,
            parity_shards: n,
        },
    }
}

/// Checks version and Reed-Solomon parameters, and makes the codec where the
/// version has one.
pub fn make_codec(version: Version, data_par_burst: Option<(usize, usize, usize)>) -> (r: Result<
    Option<RSCodec>,
    Error,
>)
    ensures
        match r {
            Ok(codec) => layout_valid(version, data_par_burst) && (match codec {
                Some(c) => data_par_burst matches Some((m, n, b)) && rs_data_shards(c) == m
                    && rs_parity_shards(c) == n,
                None => data_par_burst is None,
            }),
            Err(e) => !layout_valid(version, data_par_burst) && e.kind == (if !rs_params_valid(
                version,
                data_par_burst,
            ) {
                ErrorKind::RSCodecCreateFail
            } else {
                ErrorKind::BurstTooLarge
            }),
        },
{
    match data_par_burst {
        None => {
            if ver_uses_rs(version) {
                Err(Error::new(ErrorKind::RSCodecCreateFail))
            } else {
                Ok(None)
            }
        },
        Some((m, n, b)) => {
            if !ver_uses_rs(version) || m > 256 || n > 256 {
                return Err(Error::new(ErrorKind::RSCodecCreateFail));
            }
            match rs_codec_new(m, n) {
                None => Err(Error::new(ErrorKind::RSCodecCreateFail)),
                Some(codec) => {
                    if b > MAX_BURST {
                        Err(Error::new(ErrorKind::BurstTooLarge))
                    } else {
                        Ok(Some(codec))
                    }
                },
            }
        },
    }
}

/// The records of the metadata block of a container of `len` bytes.
pub fn make_records(param: &Param, len: usize) -> (r: Vec<Metadata>)
    requires
        param.data_par_burst matches Some((m, n, b)) ==> m <= 255 && n <= 255,
    ensures
        views(r@) == param_records(param@, len as nat),
{
    let mut r: Vec<Metadata> = Vec::new();
    match &param.file_name {
        Some(x) => {
            r.push(Metadata::FNM(clone_bytes(x)));
        },
        None => {},
    }
    match &param.sbx_name {
        Some(x) => {
            r.push(Metadata::SNM(clone_bytes(x)));
        },
        None => {},
    }
    r.push(Metadata::FSZ(len as u64));
    match param.file_mtime {
        Some(x) => {
            r.push(Metadata::FDT(x));
        },
        None => {},
    }
    match param.container_ctime {
        Some(x) => {
            r.push(Metadata::SDT(x));
        },
        None => {},
    }
    match &param.hash {
        Some(h) => {
            r.push(Metadata::HSH(clone_hash_bytes(h)));
        },
        None => {},
    }
    match param.data_par_burst {
        Some((m, n, _)) => {
            r.push(Metadata::RSD(m as u8));
            r.push(Metadata::RSP(n as u8));
        },
        None => {},
    }
    assert(views(r@) =~= param_records(param@, len as nat));
    r
}

/// The parity shards of every complete stripe of the file.
fn make_parity(
    input: &[u8],
    version: Version,
    codec: &RSCodec,
    data_shards: usize,
    parity_shards: usize,
    stripes: usize,
    chunks: usize,
) -> (r: Vec<Vec<Vec<u8>>>)
    requires
        rs_data_shards(*codec) == data_shards,
        rs_parity_shards(*codec) == parity_shards,
        1 <= data_shards,
        stripes * data_shards <= chunks,
        chunks > 0 ==> input@.len() > (chunks - 1) * data_size(version),
    ensures
        r@.len() == stripes,
        forall|k: int|
            0 <= k < stripes ==> shards_view((#[trigger] r@[k])@) == rs_parity(
                data_shards as nat,
                parity_shards as nat,
                stripe_payloads(input@, k, data_shards as int, data_size(version)),
            ) && r@[k]@.len() == parity_shards && shards_have_len(
                shards_view(r@[k]@),
                data_size(version) as nat,
            ),
{
    let size: usize = ver_to_data_size(version);
    let mut r: Vec<Vec<Vec<u8>>> = Vec::new();
    let mut k: usize = 0;
    while k < stripes
        invariant
            k <= stripes,
            size == data_size(version),
            rs_data_shards(*codec) == data_shards,
            rs_parity_shards(*codec) == parity_shards,
            1 <= data_shards,
            stripes * data_shards <= chunks,
            chunks > 0 ==> input@.len() > (chunks - 1) * data_size(version),
            r@.len() == k,
            forall|i: int|
                0 <= i < k ==> shards_view((#[trigger] r@[i])@) == rs_parity(
                    data_shards as nat,
                    parity_shards as nat,
                    stripe_payloads(input@, i, data_shards as int, data_size(version)),
                ) && r@[i]@.len() == parity_shards && shards_have_len(
                    shards_view(r@[i]@),
                    data_size(version) as nat,
                ),
        decreases stripes - k,
    {
        proof {
            assert(0 <= k * data_shards && k * data_shards + data_shards <= stripes * data_shards)
                by (nonlinear_arith)
                requires
                    0 <= k,
                    k + 1 <= stripes,
                    data_shards >= 0,
            ;
        }
        let base: usize = k * data_shards;
        let mut data: Vec<Vec<u8>> = Vec::new();
        let mut i: usize = 0;
        while i < data_shards
            invariant
                i <= data_shards,
                size == data_size(version),
                base == k * data_shards,
                base + data_shards <= chunks,
                chunks > 0 ==> input@.len() > (chunks - 1) * data_size(version),
                data@.len() == i,
                forall|x: int|
                    0 <= x < i ==> (#[trigger] data@[x])@ == chunk_payload(
                        input@,
                        base + x,
                        size as int,
                    ) && data@[x]@.len() == size,
            decreases data_shards - i,
        {
            proof {
                assert((base + i) * size <= (chunks - 1) * size) by (nonlinear_arith)
                    requires
                        base + i <= chunks - 1,
                        size >= 0,
                ;
            }
            let payload: Vec<u8> = make_chunk_payload(input, base + i, version);
            data.push(payload);
            i += 1;
        }
        let mut parity: Vec<Vec<u8>> = Vec::new();
        let mut i: usize = 0;
        while i < parity_shards
            invariant
                i <= parity_shards,
                parity@.len() == i,
                forall|x: int| 0 <= x < i ==> (#[trigger] parity@[x])@.len() == size,
            decreases parity_shards - i,
        {
            parity.push(zeros(size));
            i += 1;
        }
        proof {
            assert(shards_view(data@) =~= stripe_payloads(
                input@,
                k as int,
                data_shards as int,
                size as int,
            ));
        }
        let ok: bool = rs_codec_encode(codec, &data, &mut parity);
        let ghost before = r@;
        let ghost made = parity@;
        r.push(parity);
        proof {
            assert(r@[k as int]@ == made);
            assert forall|i: int| 0 <= i < k implies r@[i] == before[i] by {}
        }
        k += 1;
    }
    r
}

/// What the slots of a container are filled from: the bytes of the metadata
/// block and the parity shards of the complete stripes.
pub open spec fn parts_ready(
    input: Seq<u8>,
    p: ParamView,
    meta_bytes: Seq<u8>,
    parity: Seq<Vec<Vec<u8>>>,
) -> bool {
    let chunks = chunk_count(input.len() as int, p.version);
    &&& layout_valid(p.version, p.data_par_burst)
    &&& p.uid.len() == 6
    &&& last_seq_num(chunks, p.data_par_burst) <= u32::MAX
    &&& chunks <= u32::MAX
    &&& meta_bytes == crate::container::meta_block_bytes(
        p.version,
        p.uid,
        param_records(p, input.len()),
    )
    &&& meta_bytes.len() == block_size(p.version)
    &&& p.data_par_burst matches Some((m, n, b)) ==> parity.len() == chunks / (m as int)
        && forall|k: int|
        0 <= k < parity.len() ==> shards_view((#[trigger] parity[k])@) == rs_parity(
            m as nat,
            n as nat,
            stripe_payloads(input, k, m as int, data_size(p.version)),
        ) && parity[k]@.len() == n && shards_have_len(
            shards_view(parity[k]@),
            data_size(p.version) as nat,
        )
}

/// The bytes of slot `index` of the container of `input`.
fn make_slot(
    input: &[u8],
    param: &Param,
    meta_bytes: &Vec<u8>,
    parity: &Vec<Vec<Vec<u8>>>,
    index: u64,
) -> (r: Vec<u8>)
    requires
        parts_ready(input@, param@, meta_bytes@, parity@),
        index <= 0xFFFF_FFFF_FFFF,
    ensures
        r@ == slot_bytes(container_spec(input@, param@), index as int),
        r@.len() == block_size(param.version),
{
    let version: Version = param.version;
    let data_par_burst: Option<(usize, usize, usize)> = param.data_par_burst;
    let chunks: u64 = calc_chunk_count(input.len(), version);
    let last: u64 = calc_last_seq_num(chunks, data_par_burst);
    let seq_num: u64 = calc_seq_num_at_index(index, data_par_burst);
    proof {
        lemma_chunk_count_tight(input@.len() as int, version);
    }
    if seq_num == 0 {
        return clone_bytes(meta_bytes);
    }
    if seq_num > last {
        return zeros(ver_to_block_size(version));
    }
    match data_par_burst {
        None => {
            let j: u64 = seq_num - 1;
            proof {
                assert(j * data_size(version) <= (chunks - 1) * data_size(version))
                    by (nonlinear_arith)
                    requires
                        0 <= j <= chunks - 1,
                        data_size(version) >= 1,
                ;
            }
            let payload: Vec<u8> = make_chunk_payload(input, j as usize, version);
            make_block_bytes(version, &param.uid, seq_num as u32, payload.as_slice())
        },
        Some((m, n, _)) => {
            let offset: u64 = seq_num - 1;
            let total: u64 = (m + n) as u64;
            let stripe: u64 = offset / total;
            let within: u64 = offset % total;
            proof {
                lemma_seq_position(seq_num as int, chunks as int, m as int, n as int);
            }
            if within < m as u64 {
                proof {
                    assert(stripe * m >= 0) by (nonlinear_arith)
                        requires
                            stripe >= 0,
                            m >= 0,
                    ;
                }
                let j: u64 = stripe * (m as u64) + within;
                proof {
                    assert(j * data_size(version) <= (chunks - 1) * data_size(version))
                        by (nonlinear_arith)
                        requires
                            0 <= j <= chunks - 1,
                            data_size(version) >= 1,
                    ;
                }
                let payload: Vec<u8> = make_chunk_payload(input, j as usize, version);
                make_block_bytes(version, &param.uid, seq_num as u32, payload.as_slice())
            } else {
                let shard: &Vec<u8> = &parity[stripe as usize][(within - m as u64) as usize];
                proof {
                    let shards = shards_view(parity@[stripe as int]@);
                    assert(shards[within - m] == shard@);
                }
                make_block_bytes(version, &param.uid, seq_num as u32, shard.as_slice())
            }
        },
    }
}

/// Makes the container of `input`.
pub fn encode(input: &[u8], param: &Param) -> (r: Result<(Vec<u8>, Stats), Error>)
    ensures
        match r {
            Ok((container, stats)) => encode_error(input@.len(), param@) is None
                && is_container_of(container@, container_spec(input@, param@)) && stats
                == encode_stats(input@.len(), param@) && crate::container::parity_shaped(
                container_spec(input@, param@),
            ),
            Err(e) => encode_error(input@.len(), param@) == Some(e.kind),
        },
{
    let version: Version = param.version;
    let data_par_burst: Option<(usize, usize, usize)> = param.data_par_burst;
    let ghost spec = container_spec(input@, param@);
    let codec: Option<RSCodec> = match make_codec(version, data_par_burst) {
        Ok(codec) => codec,
        Err(e) => {
            return Err(e);
        },
    };
    let records: Vec<Metadata> = make_records(param, input.len());
    let meta_bytes: Vec<u8> = match make_meta_block_bytes(version, &param.uid, records.as_slice()) {
        Some(bytes) => bytes,
        None => {
            return Err(
                Error::new(ErrorKind::BlockError(crate::sbx_block::Error::TooMuchMetaData)),
            );
        },
    };
    let chunks: u64 = calc_chunk_count(input.len(), version);
    if chunks > 0xFFFF_FFFF {
        proof {
            lemma_last_seq_num_at_least(chunks as int, data_par_burst);
        }
        return Err(Error::new(ErrorKind::SeqNumOverflow));
    }
    let last: u64 = calc_last_seq_num(chunks, data_par_burst);
    if last > 0xFFFF_FFFF {
        return Err(Error::new(ErrorKind::SeqNumOverflow));
    }
    let block_size: usize = ver_to_block_size(version);
    let max: u64 = calc_max_index(last as u32, data_par_burst);
    proof {
        let limit = usize::MAX as int;
        let size = block_size as int;
        lemma_fundamental_div_mod(limit, size);
        assert(0 <= limit % size < size) by (nonlinear_arith)
            requires
                size >= 1,
        ;
        assert(max >= limit / size ==> (max + 1) * size > limit) by (nonlinear_arith)
            requires
                limit == size * (limit / size) + limit % size,
                0 <= limit % size < size,
                size >= 1,
        ;
        assert(max < limit / size ==> (max + 1) * size <= limit) by (nonlinear_arith)
            requires
                limit == size * (limit / size) + limit % size,
                0 <= limit % size < size,
                size >= 1,
        ;
        lemma_count_bound(last as int, data_par_burst);
    }
    if max >= (usize::MAX / block_size) as u64 {
        return Err(Error::new(ErrorKind::ContainerTooLarge));
    }
    let count: u64 = max + 1;
    let parity: Vec<Vec<Vec<u8>>> = match data_par_burst {
        Some((m, n, _)) => {
            proof {
                lemma_stripes_in_input(chunks as int, m as int);
                lemma_chunk_count_tight(input@.len() as int, version);
            }
            let stripes: usize = (chunks / m as u64) as usize;
            match &codec {
                Some(c) => make_parity(input, version, c, m, n, stripes, chunks as usize),
                None => Vec::new(),
            }
        },
        None => Vec::new(),
    };
    let mut container: Vec<u8> = Vec::new();
    let mut index: u64 = 0;
    while index < count
        invariant
            index <= count,
            count == slot_count(chunks as int, param.data_par_burst),
            count <= 0xFFFF_FFFF_FFFF,
            count * block_size <= usize::MAX,
            block_size == crate::sbx_specs::block_size(param.version),
            version == param.version,
            spec == container_spec(input@, param@),
            chunks == chunk_count(input@.len() as int, version),
            parts_ready(input@, param@, meta_bytes@, parity@),
            container@.len() == index * block_size,
            forall|i: int|
                0 <= i < index ==> #[trigger] slot_of(container@, i, version) == slot_bytes(
                    spec,
                    i,
                ),
        decreases count - index,
    {
        let ghost before = container@;
        let slot: Vec<u8> = make_slot(input, param, &meta_bytes, &parity, index);
        append_bytes(&mut container, slot.as_slice());
        proof {
            let after = container@;
            assert(index * block_size + block_size == (index + 1) * block_size)
                by (nonlinear_arith);
            assert(index * block_size >= 0) by (nonlinear_arith)
                requires
                    index >= 0,
                    block_size >= 0,
            ;
            assert(slot_of(after, index as int, version) =~= slot@);
            assert forall|i: int| 0 <= i < index implies #[trigger] slot_of(after, i, version)
                == slot_bytes(spec, i) by {
                assert((i + 1) * block_size <= index * block_size) by (nonlinear_arith)
                    requires
                        i + 1 <= index,
                        block_size >= 0,
                ;
                assert(i * block_size >= 0) by (nonlinear_arith)
                    requires
                        i >= 0,
                        block_size >= 0,
                ;
                assert(slot_of(after, i, version) =~= slot_of(before, i, version));
            }
        }
        index += 1;
    }
    let stats: Stats = match data_par_burst {
        None => Stats {
            sbx_version: version,
            meta_blocks_written: 1,
            data_blocks_written: chunks,
            parity_blocks_written: 0,
            data_bytes_encoded: input.len() as u64,
            data_shards: 0,
            parity_shards: 0,
        },
        Some((m, n, _)) => {
            proof {
                lemma_stripes_in_input(chunks as int, m as int);
                assert(0 <= (chunks / (m as u64)) * n <= chunks * 256) by (nonlinear_arith)
                    requires
                        0 <= chunks / (m as u64) <= chunks,
                        0 <= n <= 256,
                ;
            }
            Stats {
                sbx_version: version,
                meta_blocks_written: 1 + n as u64,
                data_blocks_written: chunks,
                parity_blocks_written: (chunks / m as u64) * n as u64,
                data_bytes_encoded: input.len() as u64,
                data_shards: m,
                parity_shards: n,
            }
        },
    };
    proof {
        if let Some((m, n, b)) = data_par_burst {
            assert forall|k: int| 0 <= k < chunks / (m as u64) implies (#[trigger] rs_parity(
                m as nat,
                n as nat,
                stripe_payloads(input@, k, m as int, data_size(version)),
            )).len() == n && shards_have_len(
                rs_parity(
                    m as nat,
                    n as nat,
                    stripe_payloads(input@, k, m as int, data_size(version)),
                ),
                data_size(version) as nat,
            ) by {
                assert(shards_view(parity@[k]@).len() == n);
            }
        }
    }
    Ok((container, stats))
}

/// The complete stripes hold no more chunks than there are.
proof fn lemma_stripes_in_input(chunks: int, m: int)
    requires
        m >= 1,
        chunks >= 0,
    ensures
        0 <= chunks / m <= chunks,
        (chunks / m) * m <= chunks,
{
    lemma_fundamental_div_mod(chunks, m);
    assert(0 <= chunks % m < m) by (nonlinear_arith)
        requires
            m >= 1,
    ;
    let full = chunks / m;
    assert(0 <= full <= chunks && full * m <= chunks) by (nonlinear_arith)
        requires
            chunks == m * full + chunks % m,
            0 <= chunks % m < m,
            chunks >= 0,
            m >= 1,
    ;
}

/// The last chunk begins within the file.
proof fn lemma_chunk_count_tight(len: int, version: Version)
    requires
        len >= 0,
    ensures
        chunk_count(len, version) >= 0,
        chunk_count(len, version) > 0 ==> len > (chunk_count(len, version) - 1) * data_size(
            version,
        ),
{
    let size = data_size(version);
    let chunks = chunk_count(len, version);
    lemma_fundamental_div_mod(len + size - 1, size);
    assert(0 <= (len + size - 1) % size < size) by (nonlinear_arith)
        requires
            size >= 1,
    ;
    assert(chunks >= 0 && (chunks > 0 ==> len > (chunks - 1) * size)) by (nonlinear_arith)
        requires
            len + size - 1 == size * chunks + (len + size - 1) % size,
            0 <= (len + size - 1) % size < size,
            len >= 0,
            size >= 1,
    ;
}

/// The slots of a container are few enough for their indices to be computed.
proof fn lemma_count_bound(last: int, data_par_burst: Option<(usize, usize, usize)>)
    requires
        0 <= last <= u32::MAX,
        data_par_burst matches Some((m, n, b)) ==> 1 <= m && m + n <= 256 && b <= MAX_BURST,
    ensures
        0 <= max_index(last, data_par_burst) < 0xFFFF_FFFF_FFFF,
    decreases last,
{
    match data_par_burst {
        None => {
            if last > 0 {
                lemma_count_bound(last - 1, data_par_burst);
            }
        },
        Some((m, n, b)) => {
            assert(0 <= n * (1 + b) <= 256 * (1 + MAX_BURST)) by (nonlinear_arith)
                requires
                    0 <= n <= 256,
                    0 <= b <= MAX_BURST,
            ;
            if last > 0 {
                lemma_count_bound(last - 1, data_par_burst);
                crate::sbx_block::position::lemma_write_index_bound(
                    last,
                    m as int,
                    n as int,
                    b as int,
                );
                assert((m + n) * b <= 256 * MAX_BURST) by (nonlinear_arith)
                    requires
                        0 <= m + n <= 256,
                        0 <= b <= MAX_BURST,
                ;
            }
        },
    }
}

} // verus!
