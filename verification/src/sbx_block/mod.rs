//! The block: header and typed payload, its byte form, and where blocks lie
//! in a container.
//!
//! A `Block` holds the parsed header and, for a metadata block, the list of
//! records. The payload of a data block is never copied into the `Block`: it
//! stays in the buffer that the caller hands to the functions here.

pub mod crc;
pub mod header;
pub mod metadata;
pub mod position;
pub mod position_list;

pub use self::header::Header;
pub use self::metadata::Metadata;
pub use self::metadata::MetadataID;
pub use self::position::calc_data_block_write_pos;
pub use self::position::calc_meta_block_all_write_pos_s;
pub use self::position::calc_rs_enabled_data_write_index;
pub use self::position::calc_rs_enabled_data_write_pos;
pub use self::position::calc_rs_enabled_meta_all_write_indices;
pub use self::position::calc_rs_enabled_meta_dup_write_all_s;
pub use self::position::calc_rs_enabled_meta_dup_write_indices;
pub use self::position::calc_rs_enabled_meta_dup_write_pos_s;
pub use self::position::calc_rs_enabled_seq_num_at_index;
pub use self::position::seq_num_is_parity;

use vstd::prelude::*;
use crate::buffer::bytes_equal;
use crate::buffer::clone_bytes;
use crate::buffer::fill;
use crate::buffer::repeated;
use crate::multihash::HashBytes;
use crate::multihash::clone_hash_bytes;
use crate::sbx_block::crc::crc_ccitt;
use crate::sbx_block::crc::crc_ccitt_range;
use crate::sbx_block::header::HeaderView;
use crate::sbx_block::header::header_bytes;
use crate::sbx_block::header::header_crc_seed;
use crate::sbx_block::header::parse_header;
use crate::sbx_block::header::seq_num_block_type;
use crate::sbx_block::header::lemma_header_round_trip;
use crate::sbx_block::metadata::MetadataView;
use crate::sbx_block::metadata::clone_metadata_list;
use crate::sbx_block::metadata::first_with_id;
use crate::sbx_block::metadata::meta_id;
use crate::sbx_block::metadata::parse_payload;
use crate::sbx_block::metadata::payload_bytes;
use crate::sbx_block::metadata::records_fit;
use crate::sbx_block::metadata::records_valid;
use crate::sbx_block::metadata::views;
use crate::sbx_block::metadata::lemma_payload_round_trip;
use crate::sbx_block::position::is_parity_seq_num;
use crate::sbx_specs::Version;
use crate::sbx_specs::SBX_FILE_UID_LEN;
use crate::sbx_specs::SBX_FIRST_DATA_SEQ_NUM;
use crate::sbx_specs::SBX_HEADER_SIZE;
use crate::sbx_specs::SBX_PADDING_BYTE;
use crate::sbx_specs::block_size;
use crate::sbx_specs::data_size;
use crate::sbx_specs::uses_rs;
use crate::sbx_specs::ver_to_block_size;
use crate::sbx_specs::ver_uses_rs;

verus! {

/// What the payload of a block holds.
#[derive(Clone, Copy, Debug, PartialEq, Eq, Structural)]
pub enum BlockType {
    Data,
    Meta,
}

/// Why a block could not be written, read or changed.
#[derive(Clone, Copy, Debug, PartialEq, Eq, Structural)]
pub enum Error {
    IncorrectBlockType,
    InconsistentHeaderBlockType,
    InsufficientBufferSize,
    IncorrectBufferSize,
    TooMuchMetaData,
    InvalidCRC,
    SeqNumOverflow,
    ParseError,
    FailedPred,
}

/// The typed payload of a block: nothing for a data block, whose bytes stay
/// in the buffer, and the records for a metadata block.
#[derive(Debug, PartialEq)]
pub enum Data {
    Data,
    Meta(Vec<Metadata>),
}

/// A block: its header and, for a metadata block, its records. The payload
/// of a data block stays in the caller's buffer.
#[derive(Debug, PartialEq)]
pub struct Block {
    header: Header,
    data: Data,
}

/// A typed payload as plain values.
pub enum DataView {
    Data,
    Meta(Seq<MetadataView>),
}

/// A block as plain values.
pub struct BlockView {
    pub header: HeaderView,
    pub data: DataView,
}

impl View for Data {
    type V = DataView;

    open spec fn view(&self) -> DataView {
        match *self {
            Data::Data => DataView::Data,
            Data::Meta(meta) => DataView::Meta(views(meta@)),
        }
    }
}

impl View for Block {
    type V = BlockView;

    closed spec fn view(&self) -> BlockView {
        BlockView { header: self.header@, data: self.data@ }
    }
}

/// The kind of payload that a block holds.
pub open spec fn data_block_type(data: DataView) -> BlockType {
    match data {
        DataView::Data => BlockType::Data,
        DataView::Meta(_) => BlockType::Meta,
    }
}

/// A block is well formed when its header and its payload agree on the kind
/// of block, and the file UID has its six bytes.
pub open spec fn block_view_wf(b: BlockView) -> bool {
    &&& seq_num_block_type(b.header.seq_num) == data_block_type(b.data)
    &&& b.header.uid.len() == 6
}

/// The payload that goes with a sequence number: the one at hand if it is of
/// the right kind, else a fresh one of the right kind.
pub open spec fn aligned_data(data: DataView, seq_num: u32) -> DataView {
    if seq_num_block_type(seq_num) == data_block_type(data) {
        data
    } else if seq_num == 0 {
        DataView::Meta(Seq::empty())
    } else {
        DataView::Data
    }
}

/// The CRC of a block: the register seeded by the header, run over the payload.
pub open spec fn block_crc(h: HeaderView, payload: Seq<u8>) -> u16 {
    crc_ccitt(header_crc_seed(h), payload)
}

/// Index of a data block among the data blocks alone, counted from zero:
/// with shard counts the parity shards are left out of the count, and a
/// parity shard has no index.
pub open spec fn data_index_of(
    version: Version,
    seq_num: u32,
    dat_par_shards: Option<(usize, usize)>,
) -> Option<int> {
    let index = seq_num - 1;
    match dat_par_shards {
        None => Some(index),
        Some((m, n)) => if uses_rs(version) && is_parity_seq_num(seq_num as int, m as int, n as int) {
            None
        } else {
            Some((index / (m + n)) * m + index % (m + n))
        },
    }
}

/// The payload bytes that a block has on disk: for the metadata block its
/// records with padding, for any other block the bytes given.
pub open spec fn block_payload(b: BlockView, payload: Seq<u8>) -> Seq<u8> {
    match b.data {
        DataView::Meta(ms) => if b.header.seq_num == 0 {
            payload_bytes(ms, data_size(b.header.version) as nat)
        } else {
            payload
        },
        DataView::Data => payload,
    }
}

/// The header with its CRC field set to the CRC of `payload`.
pub open spec fn header_with_crc(h: HeaderView, payload: Seq<u8>) -> HeaderView {
    HeaderView { crc: block_crc(h, payload), ..h }
}

/// The block that the start of a buffer spells out, or why it spells none:
/// the header must parse, the buffer must hold the whole block, the CRC must
/// match, and the payload of a metadata block must be records and padding.
pub open spec fn parse_block(buffer: Seq<u8>) -> Result<BlockView, Error> {
    if buffer.len() < 16 {
        Err(Error::InsufficientBufferSize)
    } else {
        match parse_header(buffer.subrange(0, 16)) {
            None => Err(Error::ParseError),
            Some(h) => {
                let size = block_size(h.version);
                let payload = buffer.subrange(16, size);
                if buffer.len() < size {
                    Err(Error::InsufficientBufferSize)
                } else if h.crc != block_crc(h, payload) {
                    Err(Error::InvalidCRC)
                } else if h.seq_num == 0 {
                    match parse_payload(payload) {
                        None => Err(Error::ParseError),
                        Some(ms) => Ok(BlockView { header: h, data: DataView::Meta(ms) }),
                    }
                } else {
                    Ok(BlockView { header: h, data: DataView::Data })
                }
            },
        }
    }
}

/// What a block holds after an attempt to read it from a buffer: nothing
/// changes where no header is found; otherwise the header is the one found,
/// and the payload is the records read, or a fresh payload of the kind that
/// the header announces where the block could not be read to the end.
pub open spec fn block_after_read(before: BlockView, buffer: Seq<u8>) -> BlockView {
    if buffer.len() < 16 {
        before
    } else {
        match parse_header(buffer.subrange(0, 16)) {
            None => before,
            Some(h) => match parse_block(buffer) {
                Ok(b) => b,
                Err(e) => BlockView {
                    header: h,
                    data: if h.seq_num == 0 && e == Error::ParseError {
                        DataView::Meta(Seq::empty())
                    } else {
                        aligned_data(before.data, h.seq_num)
                    },
                },
            },
        }
    }
}

/// A well-formed block, written into a buffer with its CRC brought up to
/// date, is read back from that buffer as it was written.
pub proof fn lemma_block_round_trip(b: BlockView, payload: Seq<u8>, tail: Seq<u8>)
    requires
        block_view_wf(b),
        payload.len() == data_size(b.header.version),
        b.data matches DataView::Meta(ms) ==> records_valid(ms) && records_fit(
            ms,
            data_size(b.header.version) as nat,
        ),
    ensures
        ({
            let p = block_payload(b, payload);
            let h = header_with_crc(b.header, p);
            &&& p.len() == data_size(b.header.version)
            &&& parse_block(header_bytes(h) + p + tail) == Ok::<BlockView, Error>(
                BlockView { header: h, data: b.data },
            )
        }),
{
    let p = block_payload(b, payload);
    let h = header_with_crc(b.header, p);
    let buffer = header_bytes(h) + p + tail;
    if b.data is Meta {
        lemma_payload_round_trip(b.data->Meta_0, data_size(b.header.version) as nat);
    }
    lemma_header_round_trip(h);
    assert(buffer.subrange(0, 16) =~= header_bytes(h));
    assert(buffer.subrange(16, block_size(h.version)) =~= p);
    assert(header_crc_seed(h) == header_crc_seed(b.header));
}

/// Fills the block in `buffer` with padding from `skip` bytes into its
/// payload to its end, and returns how many bytes were written.
pub fn write_padding(version: Version, skip: usize, buffer: &mut [u8]) -> (r: usize)
    requires
        SBX_HEADER_SIZE + skip <= block_size(version) <= old(buffer)@.len(),
    ensures
        r == block_size(version) - (SBX_HEADER_SIZE + skip),
        final(buffer)@ == old(buffer)@.subrange(0, SBX_HEADER_SIZE + skip) + repeated(
            SBX_PADDING_BYTE,
            r as nat,
        ) + old(buffer)@.skip(block_size(version)),
{
    let block_size: usize = ver_to_block_size(version);
    let start: usize = SBX_HEADER_SIZE + skip;
    fill(buffer, start, block_size, SBX_PADDING_BYTE);
    block_size - start
}

/// The part of `buffer` that holds one block of `version`.
pub fn slice_buf(version: Version, buffer: &[u8]) -> (r: &[u8])
    requires
        block_size(version) <= buffer@.len(),
    ensures
        r@ == buffer@.subrange(0, block_size(version)),
{
    &buffer[0..ver_to_block_size(version)]
}

/// The part of `buffer` that holds one block of `version`, to write to.
pub fn slice_buf_mut(version: Version, buffer: &mut [u8]) -> (r: &mut [u8])
    requires
        block_size(version) <= old(buffer)@.len(),
    ensures
        r@ == old(buffer)@.subrange(0, block_size(version)),
        final(buffer)@ == final(r)@ + old(buffer)@.skip(block_size(version)),
{
    let (block, _) = buffer.split_at_mut(ver_to_block_size(version));
    block
}

/// The part of `buffer` that holds the header.
pub fn slice_header_buf(buffer: &[u8]) -> (r: &[u8])
    requires
        SBX_HEADER_SIZE <= buffer@.len(),
    ensures
        r@ == buffer@.subrange(0, 16),
{
    &buffer[0..SBX_HEADER_SIZE]
}

/// The part of `buffer` that holds the header, to write to.
pub fn slice_header_buf_mut(buffer: &mut [u8]) -> (r: &mut [u8])
    requires
        SBX_HEADER_SIZE <= old(buffer)@.len(),
    ensures
        r@ == old(buffer)@.subrange(0, 16),
        final(buffer)@ == final(r)@ + old(buffer)@.skip(16),
{
    let (header, _) = buffer.split_at_mut(SBX_HEADER_SIZE);
    header
}

/// The part of `buffer` that holds the payload of a block of `version`.
pub fn slice_data_buf(version: Version, buffer: &[u8]) -> (r: &[u8])
    requires
        block_size(version) <= buffer@.len(),
    ensures
        r@ == buffer@.subrange(16, block_size(version)),
{
    &buffer[SBX_HEADER_SIZE..ver_to_block_size(version)]
}

/// The part of `buffer` that holds the payload of a block of `version`, to write to.
pub fn slice_data_buf_mut(version: Version, buffer: &mut [u8]) -> (r: &mut [u8])
    requires
        block_size(version) <= old(buffer)@.len(),
    ensures
        r@ == old(buffer)@.subrange(16, block_size(version)),
        final(buffer)@ == old(buffer)@.subrange(0, 16) + final(r)@ + old(buffer)@.skip(
            block_size(version),
        ),
{
    let (block, _) = buffer.split_at_mut(ver_to_block_size(version));
    let (_, data) = block.split_at_mut(SBX_HEADER_SIZE);
    data
}

/// Whether a buffer begins with a whole block whose CRC matches.
pub fn check_if_buffer_valid(buffer: &[u8]) -> (r: bool)
    ensures
        r == parse_block(buffer@) is Ok,
{
    let mut block: Block = Block::dummy();
    match block.sync_from_buffer_checked(buffer) {
        Ok(()) => true,
        Err(_) => false,
    }
}

impl Clone for Data {
    fn clone(&self) -> (r: Self)
        ensures
            r@ == self@,
    {
        match self {
            Data::Data => Data::Data,
            Data::Meta(meta) => Data::Meta(clone_metadata_list(meta.as_slice())),
        }
    }
}

impl Clone for Block {
    fn clone(&self) -> (r: Self)
        ensures
            r@ == self@,
    {
        let header: Header = Header {
            version: self.header.version,
            crc: self.header.crc,
            uid: self.header.uid,
            seq_num: self.header.seq_num,
        };
        Block { header, data: self.data.clone() }
    }
}

impl Block {
    /// Whether header and payload agree on the kind of block.
    pub open spec fn wf(&self) -> bool {
        block_view_wf(self@)
    }

    /// A block of the given type with sequence number 0 for metadata and 1 for
    /// data, a CRC of zero and no records.
    pub fn new(version: Version, uid: &[u8; SBX_FILE_UID_LEN], block_type: BlockType) -> (r: Block)
        ensures
            r.wf(),
            r@.header == (HeaderView {
                version,
                crc: 0,
                uid: uid@,
                seq_num: if block_type == BlockType::Data {
                    1u32
                } else {
                    0u32
                },
            }),
            r@.data == (if block_type == BlockType::Data {
                DataView::Data
            } else {
                DataView::Meta(Seq::empty())
            }),
    {
        match block_type {
            BlockType::Data => {
                let seq_num: u32 = SBX_FIRST_DATA_SEQ_NUM;
                Block { header: Header::new(version, *uid, seq_num), data: Data::Data }
            },
            BlockType::Meta => {
                let seq_num: u32 = 0;
                let meta: Vec<Metadata> = Vec::with_capacity(10);
                assert(views(meta@) =~= Seq::empty());
                Block { header: Header::new(version, *uid, seq_num), data: Data::Meta(meta) }
            },
        }
    }

    /// A data block of version 1 with sequence number 1 and a UID of zeros.
    pub fn dummy() -> (r: Block)
        ensures
            r.wf(),
            r@.header == (HeaderView {
                version: Version::V1,
                crc: 0,
                uid: seq![0u8, 0u8, 0u8, 0u8, 0u8, 0u8],
                seq_num: 1,
            }),
            r@.data == DataView::Data,
    {
        let version: Version = Version::V1;
        let seq_num: u32 = SBX_FIRST_DATA_SEQ_NUM;
        let uid: [u8; SBX_FILE_UID_LEN] = [0; SBX_FILE_UID_LEN];
        assert(uid@ =~= seq![0u8, 0u8, 0u8, 0u8, 0u8, 0u8]);
        Block { header: Header::new(version, uid, seq_num), data: Data::Data }
    }

    /// The version in the header.
    pub fn get_version(&self) -> (r: Version)
        ensures
            r == self@.header.version,
    {
        self.header.version
    }

    /// Sets the version in the header.
    pub fn set_version(&mut self, version: Version)
        ensures
            final(self)@ == (BlockView {
                header: HeaderView { version, ..old(self)@.header },
                data: old(self)@.data,
            }),
    {
        self.header.version = version;
    }

    /// The file UID in the header.
    pub fn get_uid(&self) -> (r: [u8; SBX_FILE_UID_LEN])
        ensures
            r@ == self@.header.uid,
    {
        self.header.uid
    }

    /// Sets the file UID in the header.
    pub fn set_uid(&mut self, uid: [u8; SBX_FILE_UID_LEN])
        ensures
            final(self)@ == (BlockView {
                header: HeaderView { uid: uid@, ..old(self)@.header },
                data: old(self)@.data,
            }),
    {
        self.header.uid = uid;
    }

    /// The CRC in the header.
    pub fn get_crc(&self) -> (r: u16)
        ensures
            r == self@.header.crc,
    {
        self.header.crc
    }

    /// The sequence number in the header.
    pub fn get_seq_num(&self) -> (r: u32)
        ensures
            r == self@.header.seq_num,
    {
        self.header.seq_num
    }

    /// Sets the sequence number; the payload is replaced by a fresh one where
    /// the kind of block changes with it.
    pub fn set_seq_num(&mut self, seq_num: u32)
        ensures
            final(self)@ == (BlockView {
                header: HeaderView { seq_num, ..old(self)@.header },
                data: aligned_data(old(self)@.data, seq_num),
            }),
    {
        self.header.seq_num = seq_num;
        self.switch_block_type_to_match_header();
    }

    /// Adds to the sequence number; on overflow the block is left as it is.
    pub fn add_seq_num(&mut self, val: u32) -> (r: Result<(), Error>)
        ensures
            match r {
                Ok(()) => old(self)@.header.seq_num + val <= u32::MAX && final(self)@ == (BlockView {
                    header: HeaderView {
                        seq_num: (old(self)@.header.seq_num + val) as u32,
                        ..old(self)@.header
                    },
                    data: aligned_data(
                        old(self)@.data,
                        (old(self)@.header.seq_num + val) as u32,
                    ),
                }),
                Err(e) => e == Error::SeqNumOverflow && old(self)@.header.seq_num + val > u32::MAX
                    && final(self)@ == old(self)@,
            },
    {
        match self.header.seq_num.checked_add(val) {
            None => {
                return Err(Error::SeqNumOverflow);
            },
            Some(x) => {
                self.header.seq_num = x;
            },
        }
        self.switch_block_type_to_match_header();
        Ok(())
    }

    /// Raises the sequence number by one, or fails where it is the largest.
    pub fn add1_seq_num(&mut self) -> (r: Result<(), Error>)
        ensures
            match r {
                Ok(()) => old(self)@.header.seq_num < u32::MAX && final(self)@ == (BlockView {
                    header: HeaderView {
                        seq_num: (old(self)@.header.seq_num + 1) as u32,
                        ..old(self)@.header
                    },
                    data: aligned_data(old(self)@.data, (old(self)@.header.seq_num + 1) as u32),
                }),
                Err(e) => e == Error::SeqNumOverflow && old(self)@.header.seq_num == u32::MAX
                    && final(self)@ == old(self)@,
            },
    {
        self.add_seq_num(1)
    }

    /// Whether the block holds records or data.
    pub fn block_type(&self) -> (r: BlockType)
        ensures
            r == data_block_type(self@.data),
    {
        match self.data {
            Data::Data => BlockType::Data,
            Data::Meta(_) => BlockType::Meta,
        }
    }

    /// Whether the block is a metadata block.
    pub fn is_meta(&self) -> (r: bool)
        ensures
            r == (self@.data is Meta),
    {
        match self.block_type() {
            BlockType::Data => false,
            BlockType::Meta => true,
        }
    }

    /// Whether the block is a data block.
    pub fn is_data(&self) -> (r: bool)
        ensures
            r == (self@.data is Data),
    {
        match self.block_type() {
            BlockType::Data => true,
            BlockType::Meta => false,
        }
    }

    /// Whether the block is a parity shard of a Reed-Solomon version.
    pub fn is_parity(&self, data_shards: usize, parity_shards: usize) -> (r: bool)
        requires
            uses_rs(self@.header.version) && self@.header.seq_num != 0 ==> 0 < data_shards
                + parity_shards <= u32::MAX,
        ensures
            r == (uses_rs(self@.header.version) && is_parity_seq_num(
                self@.header.seq_num as int,
                data_shards as int,
                parity_shards as int,
            )),
    {
        ver_uses_rs(self.header.version) && seq_num_is_parity(
            self.get_seq_num(),
            data_shards,
            parity_shards,
        )
    }

    /// Index of a data block among the data blocks alone.
    pub fn data_index(&self, dat_par_shards: Option<(usize, usize)>) -> (r: Option<u32>)
        requires
            self.wf(),
            dat_par_shards matches Some((m, n)) ==> 0 < m + n <= u32::MAX,
        ensures
            self@.data is Meta ==> r is None,
            self@.data is Data ==> (match data_index_of(
                self@.header.version,
                self@.header.seq_num,
                dat_par_shards,
            ) {
                Some(i) => r == Some(i as u32) && 0 <= i <= u32::MAX,
                None => r is None,
            }),
    {
        match self.data {
            Data::Meta(_) => None,
            Data::Data => {
                let data_index: u32 = self.header.seq_num - SBX_FIRST_DATA_SEQ_NUM;
                match dat_par_shards {
                    None => Some(data_index),
                    Some((data_shards, parity_shards)) => {
                        if self.is_parity(data_shards, parity_shards) {
                            None
                        } else {
                            let total: u32 = (data_shards + parity_shards) as u32;
                            let set_index: u32 = data_index / total;
                            let index_in_set: u32 = data_index % total;
                            proof {
                                let d = data_index as int;
                                let t = total as int;
                                let m = data_shards as int;
                                vstd::arithmetic::div_mod::lemma_fundamental_div_mod(d, t);
                                assert((d / t) * m + d % t <= d) by (nonlinear_arith)
                                    requires
                                        d == t * (d / t) + d % t,
                                        0 <= m <= t,
                                        0 <= d / t,
                                ;
                                assert(0 <= (d / t) * m) by (nonlinear_arith)
                                    requires
                                        0 <= m,
                                        0 <= d / t,
                                ;
                            }
                            Some(set_index * (data_shards as u32) + index_in_set)
                        }
                    },
                }
            },
        }
    }

    /// The first record of a known kind in a metadata block.
    pub fn get_meta_ref_by_id(&self, id: MetadataID) -> (r: Result<Option<&Metadata>, Error>)
        ensures
            match r {
                Ok(found) => self@.data matches DataView::Meta(ms) && (match found {
                    Some(m) => first_with_id(ms, id) is Some && m@ == ms[first_with_id(ms, id)->0]
                        && meta_id(m@) == Some(id),
                    None => first_with_id(ms, id) is None,
                }),
                Err(e) => e == Error::IncorrectBlockType && self@.data is Data,
            },
    {
        match self.data {
            Data::Data => Err(Error::IncorrectBlockType),
            Data::Meta(ref meta) => Ok(metadata::get_meta_ref_by_id(id, meta.as_slice())),
        }
    }

    /// The first record of a known kind in a metadata block, to be changed
    /// in place.
    pub fn get_meta_ref_mut_by_id(&mut self, id: MetadataID) -> (r: Result<
        Option<&mut Metadata>,
        Error,
    >)
        ensures
            match r {
                Ok(found) => old(self)@.data matches DataView::Meta(ms) && final(self)@.header
                    == old(self)@.header && (match found {
                    Some(m) => first_with_id(ms, id) matches Some(i) && 0 <= i < ms.len() && m@
                        == ms[i] && final(self)@.data == DataView::Meta(
                        ms.update(i, final(m)@),
                    ),
                    None => first_with_id(ms, id) is None && final(self)@.data == old(self)@.data,
                }),
                Err(e) => e == Error::IncorrectBlockType && old(self)@.data is Data && final(self)@
                    == old(self)@,
            },
    {
        match self.data {
            Data::Data => Err(Error::IncorrectBlockType),
            Data::Meta(ref mut meta) => {
                let ghost before = meta@;
                assert forall|i: int, x: Metadata| 0 <= i < before.len() implies #[trigger] views(
                    before.update(i, x),
                ) == views(before).update(i, x@) by {
                    assert(views(before.update(i, x)) =~= views(before).update(i, x@));
                }
                Ok(metadata::get_meta_ref_mut_by_id(id, meta))
            },
        }
    }

    /// The file name on record, if any; an error for a data block.
    #[allow(non_snake_case)]
    pub fn get_FNM(&self) -> (r: Result<Option<Vec<u8>>, Error>)
        ensures
            match r {
                Ok(found) => self@.data matches DataView::Meta(ms) && (match found {
                    Some(x) => first_with_id(ms, MetadataID::FNM) is Some && ms[first_with_id(
                        ms,
                        MetadataID::FNM,
                    )->0] == MetadataView::FNM(x@),
                    None => first_with_id(ms, MetadataID::FNM) is None,
                }),
                Err(e) => e == Error::IncorrectBlockType && self@.data is Data,
            },
    {
        match self.get_meta_ref_by_id(MetadataID::FNM) {
            Err(e) => Err(e),
            Ok(None) => Ok(None),
            Ok(Some(m)) => match m {
                Metadata::FNM(x) => Ok(Some(clone_bytes(x))),
                _ => Ok(None),
            },
        }
    }

    /// The container name on record, if any; an error for a data block.
    #[allow(non_snake_case)]
    pub fn get_SNM(&self) -> (r: Result<Option<Vec<u8>>, Error>)
        ensures
            match r {
                Ok(found) => self@.data matches DataView::Meta(ms) && (match found {
                    Some(x) => first_with_id(ms, MetadataID::SNM) is Some && ms[first_with_id(
                        ms,
                        MetadataID::SNM,
                    )->0] == MetadataView::SNM(x@),
                    None => first_with_id(ms, MetadataID::SNM) is None,
                }),
                Err(e) => e == Error::IncorrectBlockType && self@.data is Data,
            },
    {
        match self.get_meta_ref_by_id(MetadataID::SNM) {
            Err(e) => Err(e),
            Ok(None) => Ok(None),
            Ok(Some(m)) => match m {
                Metadata::SNM(x) => Ok(Some(clone_bytes(x))),
                _ => Ok(None),
            },
        }
    }

    /// The file size on record, if any; an error for a data block.
    #[allow(non_snake_case)]
    pub fn get_FSZ(&self) -> (r: Result<Option<u64>, Error>)
        ensures
            match r {
                Ok(found) => self@.data matches DataView::Meta(ms) && (match found {
                    Some(x) => first_with_id(ms, MetadataID::FSZ) is Some && ms[first_with_id(
                        ms,
                        MetadataID::FSZ,
                    )->0] == MetadataView::FSZ(x),
                    None => first_with_id(ms, MetadataID::FSZ) is None,
                }),
                Err(e) => e == Error::IncorrectBlockType && self@.data is Data,
            },
    {
        match self.get_meta_ref_by_id(MetadataID::FSZ) {
            Err(e) => Err(e),
            Ok(None) => Ok(None),
            Ok(Some(m)) => match m {
                Metadata::FSZ(x) => Ok(Some(*x)),
                _ => Ok(None),
            },
        }
    }

    /// The file's modification time on record, if any; an error for a data block.
    #[allow(non_snake_case)]
    pub fn get_FDT(&self) -> (r: Result<Option<i64>, Error>)
        ensures
            match r {
                Ok(found) => self@.data matches DataView::Meta(ms) && (match found {
                    Some(x) => first_with_id(ms, MetadataID::FDT) is Some && ms[first_with_id(
                        ms,
                        MetadataID::FDT,
                    )->0] == MetadataView::FDT(x),
                    None => first_with_id(ms, MetadataID::FDT) is None,
                }),
                Err(e) => e == Error::IncorrectBlockType && self@.data is Data,
            },
    {
        match self.get_meta_ref_by_id(MetadataID::FDT) {
            Err(e) => Err(e),
            Ok(None) => Ok(None),
            Ok(Some(m)) => match m {
                Metadata::FDT(x) => Ok(Some(*x)),
                _ => Ok(None),
            },
        }
    }

    /// The container's creation time on record, if any; an error for a data block.
    #[allow(non_snake_case)]
    pub fn get_SDT(&self) -> (r: Result<Option<i64>, Error>)
        ensures
            match r {
                Ok(found) => self@.data matches DataView::Meta(ms) && (match found {
                    Some(x) => first_with_id(ms, MetadataID::SDT) is Some && ms[first_with_id(
                        ms,
                        MetadataID::SDT,
                    )->0] == MetadataView::SDT(x),
                    None => first_with_id(ms, MetadataID::SDT) is None,
                }),
                Err(e) => e == Error::IncorrectBlockType && self@.data is Data,
            },
    {
        match self.get_meta_ref_by_id(MetadataID::SDT) {
            Err(e) => Err(e),
            Ok(None) => Ok(None),
            Ok(Some(m)) => match m {
                Metadata::SDT(x) => Ok(Some(*x)),
                _ => Ok(None),
            },
        }
    }

    /// The hash on record, if any; an error for a data block.
    #[allow(non_snake_case)]
    pub fn get_HSH(&self) -> (r: Result<Option<HashBytes>, Error>)
        ensures
            match r {
                Ok(found) => self@.data matches DataView::Meta(ms) && (match found {
                    Some(x) => first_with_id(ms, MetadataID::HSH) is Some && ms[first_with_id(
                        ms,
                        MetadataID::HSH,
                    )->0] == MetadataView::HSH(x.0, x.1@),
                    None => first_with_id(ms, MetadataID::HSH) is None,
                }),
                Err(e) => e == Error::IncorrectBlockType && self@.data is Data,
            },
    {
        match self.get_meta_ref_by_id(MetadataID::HSH) {
            Err(e) => Err(e),
            Ok(None) => Ok(None),
            Ok(Some(m)) => match m {
                Metadata::HSH(x) => Ok(Some(clone_hash_bytes(x))),
                _ => Ok(None),
            },
        }
    }

    /// The number of data shards on record, if any; an error for a data block.
    #[allow(non_snake_case)]
    pub fn get_RSD(&self) -> (r: Result<Option<u8>, Error>)
        ensures
            match r {
                Ok(found) => self@.data matches DataView::Meta(ms) && (match found {
                    Some(x) => first_with_id(ms, MetadataID::RSD) is Some && ms[first_with_id(
                        ms,
                        MetadataID::RSD,
                    )->0] == MetadataView::RSD(x),
                    None => first_with_id(ms, MetadataID::RSD) is None,
                }),
                Err(e) => e == Error::IncorrectBlockType && self@.data is Data,
            },
    {
        match self.get_meta_ref_by_id(MetadataID::RSD) {
            Err(e) => Err(e),
            Ok(None) => Ok(None),
            Ok(Some(m)) => match m {
                Metadata::RSD(x) => Ok(Some(*x)),
                _ => Ok(None),
            },
        }
    }

    /// The number of parity shards on record, if any; an error for a data block.
    #[allow(non_snake_case)]
    pub fn get_RSP(&self) -> (r: Result<Option<u8>, Error>)
        ensures
            match r {
                Ok(found) => self@.data matches DataView::Meta(ms) && (match found {
                    Some(x) => first_with_id(ms, MetadataID::RSP) is Some && ms[first_with_id(
                        ms,
                        MetadataID::RSP,
                    )->0] == MetadataView::RSP(x),
                    None => first_with_id(ms, MetadataID::RSP) is None,
                }),
                Err(e) => e == Error::IncorrectBlockType && self@.data is Data,
            },
    {
        match self.get_meta_ref_by_id(MetadataID::RSP) {
            Err(e) => Err(e),
            Ok(None) => Ok(None),
            Ok(Some(m)) => match m {
                Metadata::RSP(x) => Ok(Some(*x)),
                _ => Ok(None),
            },
        }
    }

    /// The records of a metadata block.
    pub fn meta(&self) -> (r: Result<&Vec<Metadata>, Error>)
        ensures
            match r {
                Ok(meta) => self@.data == DataView::Meta(views(meta@)),
                Err(e) => e == Error::IncorrectBlockType && self@.data is Data,
            },
    {
        match self.data {
            Data::Data => Err(Error::IncorrectBlockType),
            Data::Meta(ref meta) => Ok(meta),
        }
    }

    /// The records of a metadata block, to be changed in place.
    pub fn meta_mut(&mut self) -> (r: Result<&mut Vec<Metadata>, Error>)
        ensures
            match r {
                Ok(meta) => old(self)@.data == DataView::Meta(views(meta@)) && final(self)@ == (
                BlockView {
                    header: old(self)@.header,
                    data: DataView::Meta(views(final(meta)@)),
                }),
                Err(e) => e == Error::IncorrectBlockType && old(self)@.data is Data && final(self)@
                    == old(self)@,
            },
    {
        match self.data {
            Data::Data => Err(Error::IncorrectBlockType),
            Data::Meta(ref mut meta) => Ok(meta),
        }
    }

    /// The CRC of the block over the payload that `buffer` holds.
    pub fn calc_crc(&self, buffer: &[u8]) -> (r: u16)
        requires
            block_size(self@.header.version) <= buffer@.len(),
        ensures
            r == block_crc(
                self@.header,
                buffer@.subrange(16, block_size(self@.header.version)),
            ),
    {
        let crc: u16 = self.header.calc_crc();
        crc_ccitt_range(crc, buffer, SBX_HEADER_SIZE, ver_to_block_size(self.header.version))
    }

    /// Sets the CRC in the header to that of the block in `buffer`.
    pub fn update_crc(&mut self, buffer: &[u8])
        requires
            block_size(old(self)@.header.version) <= buffer@.len(),
        ensures
            final(self)@ == (BlockView {
                header: header_with_crc(
                    old(self)@.header,
                    buffer@.subrange(16, block_size(old(self)@.header.version)),
                ),
                data: old(self)@.data,
            }),
    {
        self.header.crc = self.calc_crc(buffer);
    }

    fn header_type_matches_block_type(&self) -> (r: bool)
        ensures
            r == (seq_num_block_type(self@.header.seq_num) == data_block_type(self@.data)),
    {
        self.header.header_type() == self.block_type()
    }

    fn switch_block_type(&mut self)
        ensures
            final(self)@.header == old(self)@.header,
            final(self)@.data == (if old(self)@.data is Meta {
                DataView::Data
            } else {
                DataView::Meta(Seq::empty())
            }),
    {
        let block_type: BlockType = self.block_type();
        if block_type == BlockType::Meta {
            self.data = Data::Data;
        } else {
            let meta: Vec<Metadata> = Vec::with_capacity(10);
            assert(views(meta@) =~= Seq::empty());
            self.data = Data::Meta(meta);
        }
    }

    fn switch_block_type_to_match_header(&mut self)
        ensures
            final(self)@.header == old(self)@.header,
            final(self)@.data == aligned_data(old(self)@.data, old(self)@.header.seq_num),
    {
        if !self.header_type_matches_block_type() {
            self.switch_block_type();
        }
    }

    /// Writes the block into the start of `buffer`. The records of the
    /// metadata block are written out as its payload; the payload of any
    /// other block is what `buffer` already holds. The CRC is brought up to
    /// date, for a data block only if `update_crc` asks for it or says
    /// nothing, and the header is written in front.
    pub fn sync_to_buffer(&mut self, update_crc: Option<bool>, buffer: &mut [u8]) -> (r: Result<
        (),
        Error,
    >)
        ensures
            match r {
                Ok(()) => {
                    let version = old(self)@.header.version;
                    let payload = block_payload(
                        old(self)@,
                        old(buffer)@.subrange(16, block_size(version)),
                    );
                    &&& old(buffer)@.len() >= block_size(version)
                    &&& payload.len() == data_size(version)
                    &&& (old(self)@.data is Meta && old(self)@.header.seq_num == 0 ==> records_fit(
                        old(self)@.data->Meta_0,
                        data_size(version) as nat,
                    ))
                    &&& final(self)@.data == old(self)@.data
                    &&& final(self)@.header == (if old(self)@.data is Meta || update_crc
                        != Some(false) {
                        header_with_crc(old(self)@.header, payload)
                    } else {
                        old(self)@.header
                    })
                    &&& final(buffer)@ == header_bytes(final(self)@.header) + payload + old(buffer)@.skip(block_size(version))
                },
                Err(e) => {
                    &&& final(self)@ == old(self)@
                    &&& final(buffer)@ == old(buffer)@
                    &&& if old(buffer)@.len() < block_size(old(self)@.header.version) {
                        e == Error::IncorrectBufferSize
                    } else {
                        &&& e == Error::TooMuchMetaData
                        &&& old(self)@.header.seq_num == 0
                        &&& old(self)@.data matches DataView::Meta(ms) && !records_fit(
                            ms,
                            data_size(old(self)@.header.version) as nat,
                        )
                    }
                },
            },
    {
        let version: Version = self.header.version;
        let block_size: usize = ver_to_block_size(version);
        if buffer.len() < block_size {
            return Err(Error::IncorrectBufferSize);
        }
        let update_crc: bool = match update_crc {
            Some(x) => x,
            None => true,
        };
        match self.data {
            Data::Meta(ref meta) => {
                if self.header.seq_num == 0 {
                    let payload = slice_data_buf_mut(version, buffer);
                    match metadata::to_bytes(meta.as_slice(), payload) {
                        Ok(()) => {},
                        Err(e) => {
                            assert(buffer@ =~= old(buffer)@);
                            return Err(e);
                        },
                    }
                }
            },
            Data::Data => {},
        }
        match self.block_type() {
            BlockType::Data => {
                if update_crc {
                    self.update_crc(buffer)
                }
            },
            BlockType::Meta => self.update_crc(buffer),
        }
        proof {
            let payload = block_payload(old(self)@, old(buffer)@.subrange(16, block_size as int));
            assert(buffer@.subrange(16, block_size as int) =~= payload);
        }
        let ghost before = buffer@;
        self.header.write_to(buffer);
        assert(buffer@ =~= header_bytes(self@.header) + before.subrange(16, block_size as int)
            + old(buffer)@.skip(block_size as int));
        Ok(())
    }

    /// Reads the header at the start of `buffer` into the block; the payload
    /// is replaced by a fresh one where the kind of block changes.
    pub fn sync_from_buffer_header_only(&mut self, buffer: &[u8]) -> (r: Result<(), Error>)
        ensures
            match r {
                Ok(()) => buffer@.len() >= 16 && parse_header(buffer@.subrange(0, 16)) == Some(
                    final(self)@.header,
                ) && final(self)@.data == aligned_data(
                    old(self)@.data,
                    final(self)@.header.seq_num,
                ) && final(self).wf(),
                Err(e) => final(self)@ == old(self)@ && (if buffer@.len() < 16 {
                    e == Error::InsufficientBufferSize
                } else {
                    e == Error::ParseError && parse_header(buffer@.subrange(0, 16)) is None
                }),
            },
    {
        if buffer.len() < SBX_HEADER_SIZE {
            return Err(Error::InsufficientBufferSize);
        }
        match self.header.read_from(buffer) {
            Ok(()) => {},
            Err(e) => {
                return Err(e);
            },
        }
        self.switch_block_type_to_match_header();
        Ok(())
    }

    /// Reads the block at the start of `buffer`: header, CRC, and for a
    /// metadata block the records.
    pub fn sync_from_buffer_checked(&mut self, buffer: &[u8]) -> (r: Result<(), Error>)
        ensures
            final(self)@ == block_after_read(old(self)@, buffer@),
            match r {
                Ok(()) => parse_block(buffer@) == Ok::<BlockView, Error>(final(self)@) && final(self).wf(),
                Err(e) => parse_block(buffer@) == Err::<BlockView, Error>(e),
            },
    {
        match self.sync_from_buffer_header_only(buffer) {
            Ok(()) => {},
            Err(e) => {
                return Err(e);
            },
        }
        let version: Version = self.header.version;
        if buffer.len() < ver_to_block_size(version) {
            return Err(Error::InsufficientBufferSize);
        }
        match self.enforce_crc(buffer) {
            Ok(()) => {},
            Err(e) => {
                return Err(e);
            },
        }
        if self.header.seq_num == 0 {
            match metadata::from_bytes(slice_data_buf(version, buffer)) {
                Ok(meta) => {
                    self.data = Data::Meta(meta);
                },
                Err(e) => {
                    let meta: Vec<Metadata> = Vec::new();
                    assert(views(meta@) =~= Seq::empty());
                    self.data = Data::Meta(meta);
                    return Err(e);
                },
            }
        }
        Ok(())
    }

    /// Reads the block at the start of `buffer` and, where one is given, asks
    /// the predicate whether the block is wanted.
    pub fn sync_from_buffer<F: Fn(&Block) -> bool>(
        &mut self,
        buffer: &[u8],
        pred: Option<&F>,
    ) -> (r: Result<(), Error>)
        requires
            pred matches Some(p) ==> forall|b: Block| #[trigger] p.requires((&b,)),
        ensures
            final(self)@ == block_after_read(old(self)@, buffer@),
            match r {
                Ok(()) => parse_block(buffer@) == Ok::<BlockView, Error>(final(self)@) && final(self).wf() && (pred matches Some(p) ==> p.ensures((final(self),), true)),
                Err(e) => match parse_block(buffer@) {
                    Err(parse_error) => e == parse_error,
                    Ok(_) => e == Error::FailedPred && pred is Some && (pred->0).ensures(
                        (final(self),),
                        false,
                    ),
                },
            },
    {
        match self.sync_from_buffer_checked(buffer) {
            Ok(()) => {},
            Err(e) => {
                return Err(e);
            },
        }
        match pred {
            Some(pred) => {
                if pred(&*self) {
                    Ok(())
                } else {
                    Err(Error::FailedPred)
                }
            },
            None => Ok(()),
        }
    }

    /// Whether the CRC in the header is the CRC of the payload in `buffer`.
    pub fn verify_crc(&self, buffer: &[u8]) -> (r: Result<bool, Error>)
        requires
            block_size(self@.header.version) <= buffer@.len(),
        ensures
            r == Ok::<bool, Error>(
                self@.header.crc == block_crc(
                    self@.header,
                    buffer@.subrange(16, block_size(self@.header.version)),
                ),
            ),
    {
        Ok(self.header.crc == self.calc_crc(buffer))
    }

    /// Fails with `InvalidCRC` unless the CRC in the header is that of the block in `buffer`.
    pub fn enforce_crc(&self, buffer: &[u8]) -> (r: Result<(), Error>)
        requires
            block_size(self@.header.version) <= buffer@.len(),
        ensures
            match r {
                Ok(()) => self@.header.crc == block_crc(
                    self@.header,
                    buffer@.subrange(16, block_size(self@.header.version)),
                ),
                Err(e) => e == Error::InvalidCRC && self@.header.crc != block_crc(
                    self@.header,
                    buffer@.subrange(16, block_size(self@.header.version)),
                ),
            },
    {
        match self.verify_crc(buffer) {
            Ok(true) => Ok(()),
            _ => Err(Error::InvalidCRC),
        }
    }

    /// Whether two blocks are of the same version and carry the same file UID.
    pub fn same_ver_uid(&self, other: &Block) -> (r: bool)
        requires
            self.wf(),
            other.wf(),
        ensures
            r == (self@.header.version == other@.header.version && self@.header.uid
                == other@.header.uid),
    {
        self.header.version == other.header.version && bytes_equal(
            self.header.uid.as_slice(),
            other.header.uid.as_slice(),
        )
    }
}

} // verus!
