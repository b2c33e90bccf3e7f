//! The 16-byte block header: signature `SBx`, version, CRC, file UID and
//! sequence number, the last two fields big-endian.

use vstd::prelude::*;
use crate::byte_order::u16_be;
use crate::byte_order::u16_of_be;
use crate::byte_order::u32_be;
use crate::byte_order::u32_of_be;
use crate::byte_order::u16_to_be;
use crate::byte_order::u16_from_be;
use crate::byte_order::u32_to_be;
use crate::byte_order::u32_from_be;
use crate::byte_order::lemma_u16_be_round_trip;
use crate::byte_order::lemma_u16_be_inverse;
use crate::byte_order::lemma_u32_be_round_trip;
use crate::byte_order::lemma_u32_be_inverse;
use crate::sbx_block::crc::CRC_CCITT_INIT;
use crate::sbx_block::crc::crc_ccitt;
use crate::sbx_block::crc::crc_ccitt_generic;
use crate::sbx_block::crc::lemma_crc_concat;
use crate::sbx_block::BlockType;
use crate::sbx_block::Error;
use crate::sbx_specs::Version;
use crate::sbx_specs::SBX_FILE_UID_LEN;
use crate::sbx_specs::SBX_HEADER_SIZE;
use crate::sbx_specs::version_byte;
use crate::sbx_specs::version_of_byte;
use crate::sbx_specs::ver_to_u8;
use crate::sbx_specs::ver_from_u8;

verus! {

/// The header of a block: version, CRC of the block, file UID and sequence number.
#[derive(Clone, Copy, Debug, PartialEq)]
pub struct Header {
    pub version: Version,
    pub crc: u16,
    pub uid: [u8; SBX_FILE_UID_LEN],
    pub seq_num: u32,
}

/// A header as plain values; `uid` has six bytes.
pub struct HeaderView {
    pub version: Version,
    pub crc: u16,
    pub uid: Seq<u8>,
    pub seq_num: u32,
}

impl View for Header {
    type V = HeaderView;

    open spec fn view(&self) -> HeaderView {
        HeaderView { version: self.version, crc: self.crc, uid: self.uid@, seq_num: self.seq_num }
    }
}

/// The three signature bytes `S`, `B`, `x`.
pub open spec fn signature() -> Seq<u8> {
    seq![0x53u8, 0x42u8, 0x78u8]
}

/// The header bytes without the CRC field: signature, version, UID and
/// sequence number, fourteen bytes in all.
pub open spec fn header_bytes_without_crc(h: HeaderView) -> Seq<u8> {
    signature() + seq![version_byte(h.version)] + h.uid + u32_be(h.seq_num)
}

/// The sixteen bytes of a header.
pub open spec fn header_bytes(h: HeaderView) -> Seq<u8> {
    signature() + seq![version_byte(h.version)] + u16_be(h.crc) + h.uid + u32_be(h.seq_num)
}

/// The header that sixteen bytes spell out, if the signature is there and the
/// version is known.
pub open spec fn parse_header(b: Seq<u8>) -> Option<HeaderView> {
    if b.len() == 16 && b.subrange(0, 3) == signature() && version_of_byte(b[3]) is Some {
        Some(
            HeaderView {
                version: version_of_byte(b[3])->0,
                crc: u16_of_be(b.subrange(4, 6)),
                uid: b.subrange(6, 12),
                seq_num: u32_of_be(b.subrange(12, 16)),
            },
        )
    } else {
        None
    }
}

/// The CRC register after the fourteen header bytes outside the CRC field;
/// the CRC of a block goes on from here over the payload.
pub open spec fn header_crc_seed(h: HeaderView) -> u16 {
    crc_ccitt(CRC_CCITT_INIT, header_bytes_without_crc(h))
}

/// What kind of block a sequence number announces.
pub open spec fn seq_num_block_type(seq_num: u32) -> BlockType {
    if seq_num == 0 {
        BlockType::Meta
    } else {
        BlockType::Data
    }
}

/// A header written out and read back is the same header.
pub proof fn lemma_header_round_trip(h: HeaderView)
    requires
        h.uid.len() == 6,
    ensures
        header_bytes(h).len() == 16,
        parse_header(header_bytes(h)) == Some(h),
{
    let b = header_bytes(h);
    lemma_u16_be_round_trip(h.crc);
    lemma_u32_be_round_trip(h.seq_num);
    crate::sbx_specs::lemma_version_byte_round_trip(h.version);
    assert(b.subrange(0, 3) =~= signature());
    assert(b.subrange(4, 6) =~= u16_be(h.crc));
    assert(b.subrange(6, 12) =~= h.uid);
    assert(b.subrange(12, 16) =~= u32_be(h.seq_num));
    assert(b[3] == version_byte(h.version));
}

/// Sixteen bytes that parse as a header are the bytes of that header.
pub proof fn lemma_header_parse_inverse(b: Seq<u8>)
    requires
        parse_header(b) is Some,
    ensures
        (parse_header(b)->0).uid.len() == 6,
        header_bytes(parse_header(b)->0) == b,
{
    let h = parse_header(b)->0;
    lemma_u16_be_inverse(b.subrange(4, 6));
    lemma_u32_be_inverse(b.subrange(12, 16));
    crate::sbx_specs::lemma_version_of_byte_inverse(b[3]);
    assert(b.subrange(0, 3)[0] == b[0]);
    assert(b.subrange(0, 3)[1] == b[1]);
    assert(b.subrange(0, 3)[2] == b[2]);
    assert(header_bytes(h) =~= b);
}

impl Header {
    /// A header with the given version, UID and sequence number and a CRC of zero.
    pub fn new(version: Version, uid: [u8; SBX_FILE_UID_LEN], seq_num: u32) -> (r: Header)
        ensures
            r@ == (HeaderView { version, crc: 0, uid: uid@, seq_num }),
    {
        Header { version, crc: 0, uid, seq_num }
    }

    /// Writes the header over the first sixteen bytes of `buffer`.
    pub fn write_to(&self, buffer: &mut [u8])
        requires
            old(buffer)@.len() >= SBX_HEADER_SIZE,
        ensures
            final(buffer)@ == header_bytes(self@) + old(buffer)@.skip(16),
    {
        let crc: [u8; 2] = u16_to_be(self.crc);
        let seq_num: [u8; 4] = u32_to_be(self.seq_num);
        buffer[0] = 0x53;
        buffer[1] = 0x42;
        buffer[2] = 0x78;
        buffer[3] = ver_to_u8(self.version);
        buffer[4] = crc[0];
        buffer[5] = crc[1];
        buffer[6] = self.uid[0];
        buffer[7] = self.uid[1];
        buffer[8] = self.uid[2];
        buffer[9] = self.uid[3];
        buffer[10] = self.uid[4];
        buffer[11] = self.uid[5];
        buffer[12] = seq_num[0];
        buffer[13] = seq_num[1];
        buffer[14] = seq_num[2];
        buffer[15] = seq_num[3];
        assert(buffer@ =~= header_bytes(self@) + old(buffer)@.skip(16));
    }

    /// Writes the header into a buffer of exactly sixteen bytes.
    pub fn to_bytes(&self, buffer: &mut [u8]) -> (r: Result<(), Error>)
        ensures
            match r {
                Ok(()) => old(buffer)@.len() == 16 && final(buffer)@ == header_bytes(self@),
                Err(e) => e == Error::IncorrectBufferSize && old(buffer)@.len() != 16
                    && final(buffer)@ == old(buffer)@,
            },
    {
        if buffer.len() != SBX_HEADER_SIZE {
            return Err(Error::IncorrectBufferSize);
        }
        self.write_to(buffer);
        assert(buffer@ =~= header_bytes(self@));
        Ok(())
    }

    /// Reads the header that the first sixteen bytes of `buffer` spell out;
    /// `self` is left as it was where they spell none.
    pub fn read_from(&mut self, buffer: &[u8]) -> (r: Result<(), Error>)
        requires
            buffer@.len() >= SBX_HEADER_SIZE,
        ensures
            match r {
                Ok(()) => parse_header(buffer@.subrange(0, 16)) == Some(final(self)@),
                Err(e) => e == Error::ParseError && parse_header(buffer@.subrange(0, 16)) is None
                    && *final(self) == *old(self),
            },
    {
        let ghost b = buffer@.subrange(0, 16);
        assert(b.subrange(0, 3) =~= seq![buffer@[0], buffer@[1], buffer@[2]]);
        if buffer[0] != 0x53 || buffer[1] != 0x42 || buffer[2] != 0x78 {
            assert(b.subrange(0, 3)[0] == buffer@[0]);
            assert(b.subrange(0, 3)[1] == buffer@[1]);
            assert(b.subrange(0, 3)[2] == buffer@[2]);
            return Err(Error::ParseError);
        }
        assert(b.subrange(0, 3) =~= signature());
        let version: Version = match ver_from_u8(buffer[3]) {
            Some(v) => v,
            None => {
                return Err(Error::ParseError);
            },
        };
        let crc: u16 = u16_from_be(buffer[4], buffer[5]);
        let uid: [u8; SBX_FILE_UID_LEN] = [
            buffer[6],
            buffer[7],
            buffer[8],
            buffer[9],
            buffer[10],
            buffer[11],
        ];
        let seq_num: u32 = u32_from_be(buffer, 12);
        proof {
            assert(b.subrange(4, 6) =~= seq![buffer@[4], buffer@[5]]);
            assert(b.subrange(6, 12) =~= uid@);
            assert(b.subrange(12, 16) =~= buffer@.subrange(12, 16));
        }
        self.version = version;
        self.crc = crc;
        self.uid = uid;
        self.seq_num = seq_num;
        Ok(())
    }

    /// Reads a header from a buffer of exactly sixteen bytes.
    pub fn from_bytes(&mut self, buffer: &[u8]) -> (r: Result<(), Error>)
        ensures
            match r {
                Ok(()) => parse_header(buffer@) == Some(final(self)@),
                Err(e) => *final(self) == *old(self) && (if buffer@.len() != 16 {
                    e == Error::IncorrectBufferSize
                } else {
                    e == Error::ParseError && parse_header(buffer@) is None
                }),
            },
    {
        if buffer.len() != SBX_HEADER_SIZE {
            return Err(Error::IncorrectBufferSize);
        }
        assert(buffer@.subrange(0, 16) =~= buffer@);
        self.read_from(buffer)
    }

    /// The CRC register from which the CRC of the payload is run.
    pub fn calc_crc(&self) -> (r: u16)
        ensures
            r == header_crc_seed(self@),
    {
        let seq_num: [u8; 4] = u32_to_be(self.seq_num);
        let head: [u8; 4] = [0x53, 0x42, 0x78, ver_to_u8(self.version)];
        let crc: u16 = crc_ccitt_generic(CRC_CCITT_INIT, head.as_slice());
        let crc: u16 = crc_ccitt_generic(crc, self.uid.as_slice());
        let crc: u16 = crc_ccitt_generic(crc, seq_num.as_slice());
        proof {
            let a = signature() + seq![version_byte(self.version)];
            assert(head@ =~= a);
            lemma_crc_concat(CRC_CCITT_INIT, a, self.uid@);
            lemma_crc_concat(CRC_CCITT_INIT, a + self.uid@, u32_be(self.seq_num));
        }
        crc
    }

    /// The type that the sequence number gives the block: metadata for zero, data otherwise.
    pub fn header_type(&self) -> (r: BlockType)
        ensures
            r == seq_num_block_type(self.seq_num),
    {
        if self.seq_num == 0 {
            BlockType::Meta
        } else {
            BlockType::Data
        }
    }
}

} // verus!
