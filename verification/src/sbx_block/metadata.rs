//! The records of a metadata block. A record is a three-byte kind, one
//! length byte and that many bytes of data; the records stand one after the
//! other from the start of the payload, and the rest of the payload is
//! filled with the padding byte. Records of a kind that is not known here are
//! kept as they are.

use vstd::prelude::*;
use crate::buffer::repeated;
use crate::buffer::clone_bytes;
use crate::buffer::copy_into;
use crate::buffer::copy_range_to_vec;
use crate::buffer::fill;
use crate::buffer::is_filled_with;
use crate::byte_order::u64_be;
use crate::byte_order::u64_of_be;
use crate::byte_order::i64_be;
use crate::byte_order::i64_of_be;
use crate::byte_order::u64_to_be;
use crate::byte_order::u64_from_be;
use crate::byte_order::i64_to_bits;
use crate::byte_order::i64_from_bits;
use crate::byte_order::lemma_u64_be_round_trip;
use crate::byte_order::lemma_u64_be_inverse;
use crate::byte_order::lemma_i64_bits_round_trip;
use crate::byte_order::lemma_i64_bits_inverse;
use crate::multihash::HashBytes;
use crate::multihash::HashType;
use crate::multihash::clone_hash_bytes;
use crate::multihash::digest_len;
use crate::multihash::hash_bytes_from_bytes;
use crate::multihash::hash_bytes_to_bytes;
use crate::multihash::lemma_multihash_parse_inverse;
use crate::multihash::lemma_multihash_round_trip;
use crate::multihash::multihash_bytes;
use crate::multihash::parse_multihash;
use crate::sbx_block::Error;
use crate::sbx_specs::SBX_PADDING_BYTE;

verus! {

/// One record of a metadata block.
#[derive(Debug, PartialEq)]
pub enum Metadata {
    /// Name of the stored file.
    FNM(Vec<u8>),
    /// Name of the container.
    SNM(Vec<u8>),
    /// Size of the stored file.
    FSZ(u64),
    /// Modification time of the stored file.
    FDT(i64),
    /// Creation time of the container.
    SDT(i64),
    /// Hash of the stored file.
    HSH(HashBytes),
    /// Number of Reed-Solomon data shards.
    RSD(u8),
    /// Number of Reed-Solomon parity shards.
    RSP(u8),
    /// A record of another kind: its three kind bytes and its data.
    Unknown([u8; 3], Vec<u8>),
}

/// The identifiers of the records that are known.
#[derive(Clone, Copy, Debug, PartialEq, Eq, Structural)]
pub enum MetadataID {
    FNM,
    SNM,
    FSZ,
    FDT,
    SDT,
    HSH,
    RSD,
    RSP,
}

/// A record as plain values.
pub enum MetadataView {
    FNM(Seq<u8>),
    SNM(Seq<u8>),
    FSZ(u64),
    FDT(i64),
    SDT(i64),
    HSH(HashType, Seq<u8>),
    RSD(u8),
    RSP(u8),
    Unknown((u8, u8, u8), Seq<u8>),
}

impl View for Metadata {
    type V = MetadataView;

    open spec fn view(&self) -> MetadataView {
        match *self {
            Metadata::FNM(d) => MetadataView::FNM(d@),
            Metadata::SNM(d) => MetadataView::SNM(d@),
            Metadata::FSZ(x) => MetadataView::FSZ(x),
            Metadata::FDT(x) => MetadataView::FDT(x),
            Metadata::SDT(x) => MetadataView::SDT(x),
            Metadata::HSH(h) => MetadataView::HSH(h.0, h.1@),
            Metadata::RSD(x) => MetadataView::RSD(x),
            Metadata::RSP(x) => MetadataView::RSP(x),
            Metadata::Unknown(c, d) => MetadataView::Unknown((c@[0], c@[1], c@[2]), d@),
        }
    }
}

/// The records of a list as plain values.
pub open spec fn views(meta: Seq<Metadata>) -> Seq<MetadataView> {
    Seq::new(meta.len(), |i: int| meta[i]@)
}

/// The three bytes that name a known kind: its name in ASCII.
pub open spec fn id_code(id: MetadataID) -> (u8, u8, u8) {
    match id {
        MetadataID::FNM => (0x46, 0x4E, 0x4D),
        MetadataID::SNM => (0x53, 0x4E, 0x4D),
        MetadataID::FSZ => (0x46, 0x53, 0x5A),
        MetadataID::FDT => (0x46, 0x44, 0x54),
        MetadataID::SDT => (0x53, 0x44, 0x54),
        MetadataID::HSH => (0x48, 0x53, 0x48),
        MetadataID::RSD => (0x52, 0x53, 0x44),
        MetadataID::RSP => (0x52, 0x53, 0x50),
    }
}

/// The known kind that three bytes name, if any.
pub open spec fn code_id(code: (u8, u8, u8)) -> Option<MetadataID> {
    if code == id_code(MetadataID::FNM) {
        Some(MetadataID::FNM)
    } else if code == id_code(MetadataID::SNM) {
        Some(MetadataID::SNM)
    } else if code == id_code(MetadataID::FSZ) {
        Some(MetadataID::FSZ)
    } else if code == id_code(MetadataID::FDT) {
        Some(MetadataID::FDT)
    } else if code == id_code(MetadataID::SDT) {
        Some(MetadataID::SDT)
    } else if code == id_code(MetadataID::HSH) {
        Some(MetadataID::HSH)
    } else if code == id_code(MetadataID::RSD) {
        Some(MetadataID::RSD)
    } else if code == id_code(MetadataID::RSP) {
        Some(MetadataID::RSP)
    } else {
        None
    }
}

/// The known kind of a record, if it has one.
pub open spec fn meta_id(m: MetadataView) -> Option<MetadataID> {
    match m {
        MetadataView::FNM(_) => Some(MetadataID::FNM),
        MetadataView::SNM(_) => Some(MetadataID::SNM),
        MetadataView::FSZ(_) => Some(MetadataID::FSZ),
        MetadataView::FDT(_) => Some(MetadataID::FDT),
        MetadataView::SDT(_) => Some(MetadataID::SDT),
        MetadataView::HSH(_, _) => Some(MetadataID::HSH),
        MetadataView::RSD(_) => Some(MetadataID::RSD),
        MetadataView::RSP(_) => Some(MetadataID::RSP),
        MetadataView::Unknown(_, _) => None,
    }
}

/// The three kind bytes of a record.
pub open spec fn record_code(m: MetadataView) -> (u8, u8, u8) {
    match m {
        MetadataView::Unknown(code, _) => code,
        _ => id_code(meta_id(m)->0),
    }
}

/// The data bytes of a record.
pub open spec fn record_data(m: MetadataView) -> Seq<u8> {
    match m {
        MetadataView::FNM(d) => d,
        MetadataView::SNM(d) => d,
        MetadataView::FSZ(x) => u64_be(x),
        MetadataView::FDT(x) => i64_be(x),
        MetadataView::SDT(x) => i64_be(x),
        MetadataView::HSH(hash_type, digest) => multihash_bytes(hash_type, digest),
        MetadataView::RSD(x) => seq![x],
        MetadataView::RSP(x) => seq![x],
        MetadataView::Unknown(_, d) => d,
    }
}

/// A record that can be written and is read back as itself: its data fits
/// the length byte, a hash has the length of its function, and a record of
/// unknown kind neither bears a known name nor begins like the padding.
pub open spec fn record_valid(m: MetadataView) -> bool {
    &&& record_data(m).len() <= 255
    &&& m matches MetadataView::HSH(hash_type, digest) ==> digest.len() == digest_len(hash_type)
    &&& m matches MetadataView::Unknown(code, _) ==> code.0 != SBX_PADDING_BYTE && code_id(code)
        is None
}

/// The bytes of one record.
pub open spec fn record_bytes(m: MetadataView) -> Seq<u8> {
    let code = record_code(m);
    seq![code.0, code.1, code.2, record_data(m).len() as u8] + record_data(m)
}

/// The bytes of a list of records, one after the other.
pub open spec fn records_bytes(ms: Seq<MetadataView>) -> Seq<u8>
    decreases ms.len(),
{
    if ms.len() == 0 {
        Seq::empty()
    } else {
        records_bytes(ms.drop_last()) + record_bytes(ms.last())
    }
}

/// Whether a list of records can be written into `size` bytes.
pub open spec fn records_fit(ms: Seq<MetadataView>, size: nat) -> bool {
    &&& forall|i: int| 0 <= i < ms.len() ==> (#[trigger] record_data(ms[i])).len() <= 255
    &&& records_bytes(ms).len() <= size
}

/// Whether every record of a list is read back as itself.
pub open spec fn records_valid(ms: Seq<MetadataView>) -> bool {
    forall|i: int| 0 <= i < ms.len() ==> record_valid(#[trigger] ms[i])
}

/// The payload of a metadata block of `size` bytes: the records, then padding.
pub open spec fn payload_bytes(ms: Seq<MetadataView>, size: nat) -> Seq<u8> {
    records_bytes(ms) + repeated(SBX_PADDING_BYTE, (size - records_bytes(ms).len()) as nat)
}

/// The record that a kind and data bytes stand for, if any: a known kind
/// asks for data of its form.
pub open spec fn decode_record(code: (u8, u8, u8), data: Seq<u8>) -> Option<MetadataView> {
    match code_id(code) {
        Some(MetadataID::FNM) => Some(MetadataView::FNM(data)),
        Some(MetadataID::SNM) => Some(MetadataView::SNM(data)),
        Some(MetadataID::FSZ) => if data.len() == 8 {
            Some(MetadataView::FSZ(u64_of_be(data)))
        } else {
            None
        },
        Some(MetadataID::FDT) => if data.len() == 8 {
            Some(MetadataView::FDT(i64_of_be(data)))
        } else {
            None
        },
        Some(MetadataID::SDT) => if data.len() == 8 {
            Some(MetadataView::SDT(i64_of_be(data)))
        } else {
            None
        },
        Some(MetadataID::HSH) => match parse_multihash(data) {
            Some((hash_type, digest)) => Some(MetadataView::HSH(hash_type, digest)),
            None => None,
        },
        Some(MetadataID::RSD) => if data.len() == 1 {
            Some(MetadataView::RSD(data[0]))
        } else {
            None
        },
        Some(MetadataID::RSP) => if data.len() == 1 {
            Some(MetadataView::RSP(data[0]))
        } else {
            None
        },
        None => if code.0 != SBX_PADDING_BYTE {
            Some(MetadataView::Unknown(code, data))
        } else {
            None
        },
    }
}

/// The record at the start of `b`, if a whole one is there.
pub open spec fn parse_record(b: Seq<u8>) -> Option<MetadataView> {
    if b.len() >= 4 && b.len() >= 4 + b[3] {
        decode_record((b[0], b[1], b[2]), b.subrange(4, 4 + b[3]))
    } else {
        None
    }
}

/// The records of a payload: records are read until the payload ends or a
/// padding byte stands where a record would begin; from there on the payload
/// must be padding throughout.
pub open spec fn parse_payload(b: Seq<u8>) -> Option<Seq<MetadataView>>
    decreases b.len(),
{
    if b.len() == 0 {
        Some(Seq::empty())
    } else if b[0] == SBX_PADDING_BYTE {
        if b == repeated(SBX_PADDING_BYTE, b.len()) {
            Some(Seq::empty())
        } else {
            None
        }
    } else {
        match parse_record(b) {
            None => None,
            Some(m) => prepend(seq![m], parse_payload(b.skip(4 + b[3]))),
        }
    }
}

/// `front` put before the records of `rest`, where there are any.
pub open spec fn prepend(front: Seq<MetadataView>, rest: Option<Seq<MetadataView>>) -> Option<
    Seq<MetadataView>,
> {
    match rest {
        None => None,
        Some(r) => Some(front + r),
    }
}

/// Position of the first record of a known kind, if the list has one.
pub open spec fn first_with_id(ms: Seq<MetadataView>, id: MetadataID) -> Option<int>
    decreases ms.len(),
{
    if ms.len() == 0 {
        None
    } else {
        match first_with_id(ms.drop_last(), id) {
            Some(i) => Some(i),
            None => if meta_id(ms.last()) == Some(id) {
                Some(ms.len() - 1)
            } else {
                None
            },
        }
    }
}

proof fn lemma_data_len(m: MetadataView)
    ensures
        (m is FSZ || m is FDT || m is SDT) ==> record_data(m).len() == 8,
        (m is RSD || m is RSP) ==> record_data(m).len() == 1,
{
    match m {
        MetadataView::FSZ(x) => lemma_u64_be_round_trip(x),
        MetadataView::FDT(x) => lemma_u64_be_round_trip(crate::byte_order::bits_of_i64(x)),
        MetadataView::SDT(x) => lemma_u64_be_round_trip(crate::byte_order::bits_of_i64(x)),
        _ => {},
    }
}

/// Writing one more record appends its bytes.
pub proof fn lemma_records_bytes_push(ms: Seq<MetadataView>, m: MetadataView)
    ensures
        records_bytes(ms.push(m)) == records_bytes(ms) + record_bytes(m),
{
    assert(ms.push(m).drop_last() =~= ms);
}

/// The bytes of a list begin with the bytes of its first record.
pub proof fn lemma_records_bytes_prepend(m: MetadataView, rest: Seq<MetadataView>)
    ensures
        records_bytes(seq![m] + rest) == record_bytes(m) + records_bytes(rest),
    decreases rest.len(),
{
    if rest.len() == 0 {
        assert(seq![m] + rest =~= seq![m]);
        assert(seq![m].drop_last() =~= Seq::<MetadataView>::empty());
        assert(records_bytes(seq![m].drop_last()) =~= Seq::<u8>::empty());
        assert(seq![m].last() == m);
        assert(records_bytes(seq![m]) =~= record_bytes(m));
        assert(record_bytes(m) + records_bytes(rest) =~= record_bytes(m));
    } else {
        lemma_records_bytes_prepend(m, rest.drop_last());
        assert((seq![m] + rest).drop_last() =~= seq![m] + rest.drop_last());
        assert((seq![m] + rest).last() == rest.last());
        assert(records_bytes(seq![m] + rest) =~= record_bytes(m) + records_bytes(rest));
    }
}

/// A part of a list from its start takes no more bytes than the list.
pub proof fn lemma_records_bytes_prefix(ms: Seq<MetadataView>, i: int)
    requires
        0 <= i <= ms.len(),
    ensures
        records_bytes(ms.subrange(0, i)).len() <= records_bytes(ms).len(),
    decreases ms.len() - i,
{
    if i == ms.len() {
        assert(ms.subrange(0, i) =~= ms);
    } else {
        lemma_records_bytes_prefix(ms, i + 1);
        assert(ms.subrange(0, i + 1).drop_last() =~= ms.subrange(0, i));
    }
}

/// A valid record followed by anything is read back as itself.
pub proof fn lemma_record_round_trip(m: MetadataView, tail: Seq<u8>)
    requires
        record_valid(m),
    ensures
        parse_record(record_bytes(m) + tail) == Some(m),
        (record_bytes(m) + tail)[3] == record_data(m).len(),
        (record_bytes(m) + tail)[0] != SBX_PADDING_BYTE,
        (record_bytes(m) + tail).skip(4 + record_data(m).len() as int) == tail,
{
    let b = record_bytes(m) + tail;
    let data = record_data(m);
    let code = record_code(m);
    assert(b[0] == code.0 && b[1] == code.1 && b[2] == code.2);
    assert(b[3] == data.len() as u8);
    assert(b.subrange(4, 4 + b[3]) =~= data);
    assert(b.skip(4 + data.len() as int) =~= tail);
    lemma_data_len(m);
    match m {
        MetadataView::FSZ(x) => {
            lemma_u64_be_round_trip(x);
        },
        MetadataView::FDT(x) => {
            lemma_u64_be_round_trip(crate::byte_order::bits_of_i64(x));
            lemma_i64_bits_round_trip(x);
        },
        MetadataView::SDT(x) => {
            lemma_u64_be_round_trip(crate::byte_order::bits_of_i64(x));
            lemma_i64_bits_round_trip(x);
        },
        MetadataView::HSH(hash_type, digest) => {
            lemma_multihash_round_trip(hash_type, digest);
        },
        _ => {},
    }
}

/// A record that was read is valid, and the bytes it was read from are its bytes.
pub proof fn lemma_record_parse_inverse(b: Seq<u8>)
    requires
        parse_record(b) is Some,
    ensures
        record_valid(parse_record(b)->0),
        record_data(parse_record(b)->0).len() == b[3],
        record_bytes(parse_record(b)->0) == b.subrange(0, 4 + b[3]),
{
    let m = parse_record(b)->0;
    let data = b.subrange(4, 4 + b[3]);
    let code = (b[0], b[1], b[2]);
    match m {
        MetadataView::FSZ(x) => {
            lemma_u64_be_inverse(data);
        },
        MetadataView::FDT(x) => {
            lemma_u64_be_inverse(data);
            lemma_i64_bits_inverse(u64_of_be(data));
        },
        MetadataView::SDT(x) => {
            lemma_u64_be_inverse(data);
            lemma_i64_bits_inverse(u64_of_be(data));
        },
        MetadataView::HSH(hash_type, digest) => {
            lemma_multihash_parse_inverse(data);
        },
        MetadataView::RSD(x) => {
            assert(seq![x] =~= data);
        },
        MetadataView::RSP(x) => {
            assert(seq![x] =~= data);
        },
        _ => {},
    }
    assert(record_data(m) == data);
    assert(record_code(m) == code);
    assert(record_bytes(m) =~= b.subrange(0, 4 + b[3]));
}

/// Records that are valid and fit are read back from their payload as they
/// were written.
pub proof fn lemma_payload_round_trip(ms: Seq<MetadataView>, size: nat)
    requires
        records_valid(ms),
        records_bytes(ms).len() <= size,
    ensures
        payload_bytes(ms, size).len() == size,
        parse_payload(payload_bytes(ms, size)) == Some(ms),
    decreases ms.len(),
{
    let b = payload_bytes(ms, size);
    if ms.len() == 0 {
        assert(b =~= repeated(SBX_PADDING_BYTE, size));
    } else {
        let m = ms[0];
        let rest = ms.skip(1);
        assert(ms =~= seq![m] + rest);
        lemma_records_bytes_prepend(m, rest);
        let rest_size = (size - record_bytes(m).len()) as nat;
        let tail = payload_bytes(rest, rest_size);
        assert(records_valid(rest)) by {
            assert forall|i: int| 0 <= i < rest.len() implies record_valid(#[trigger] rest[i]) by {
                assert(rest[i] == ms[i + 1]);
            }
        }
        assert(record_valid(ms[0]));
        lemma_payload_round_trip(rest, rest_size);
        assert(b =~= record_bytes(m) + tail);
        lemma_record_round_trip(m, tail);
    }
}

/// A payload that was read holds valid records, and is the payload of those
/// records: no other bytes are read as the same list.
pub proof fn lemma_payload_parse_inverse(b: Seq<u8>)
    requires
        parse_payload(b) is Some,
    ensures
        records_valid(parse_payload(b)->0),
        records_bytes(parse_payload(b)->0).len() <= b.len(),
        payload_bytes(parse_payload(b)->0, b.len()) == b,
    decreases b.len(),
{
    let ms = parse_payload(b)->0;
    if b.len() == 0 {
        assert(payload_bytes(ms, b.len()) =~= b);
    } else if b[0] == SBX_PADDING_BYTE {
        assert(payload_bytes(ms, b.len()) =~= b);
    } else {
        let m = parse_record(b)->0;
        let used = 4 + b[3];
        let rest_bytes = b.skip(used);
        let rest = parse_payload(rest_bytes)->0;
        assert(ms == seq![m] + rest);
        lemma_record_parse_inverse(b);
        lemma_payload_parse_inverse(rest_bytes);
        lemma_records_bytes_prepend(m, rest);
        assert forall|i: int| 0 <= i < ms.len() implies record_valid(#[trigger] ms[i]) by {
            if i > 0 {
                assert(ms[i] == rest[i - 1]);
            }
        }
        assert(payload_bytes(ms, b.len()) =~= b.subrange(0, used) + payload_bytes(
            rest,
            rest_bytes.len(),
        ));
        assert(b =~= b.subrange(0, used) + rest_bytes);
    }
}

/// The three kind bytes of a known kind.
pub fn id_to_bytes(id: MetadataID) -> (r: [u8; 3])
    ensures
        (r@[0], r@[1], r@[2]) == id_code(id),
{
    match id {
        MetadataID::FNM => [0x46, 0x4E, 0x4D],
        MetadataID::SNM => [0x53, 0x4E, 0x4D],
        MetadataID::FSZ => [0x46, 0x53, 0x5A],
        MetadataID::FDT => [0x46, 0x44, 0x54],
        MetadataID::SDT => [0x53, 0x44, 0x54],
        MetadataID::HSH => [0x48, 0x53, 0x48],
        MetadataID::RSD => [0x52, 0x53, 0x44],
        MetadataID::RSP => [0x52, 0x53, 0x50],
    }
}

/// The known kind that three bytes name, if any.
pub fn id_from_bytes(b0: u8, b1: u8, b2: u8) -> (r: Option<MetadataID>)
    ensures
        r == code_id((b0, b1, b2)),
{
    if b0 == 0x46 && b1 == 0x4E && b2 == 0x4D {
        Some(MetadataID::FNM)
    } else if b0 == 0x53 && b1 == 0x4E && b2 == 0x4D {
        Some(MetadataID::SNM)
    } else if b0 == 0x46 && b1 == 0x53 && b2 == 0x5A {
        Some(MetadataID::FSZ)
    } else if b0 == 0x46 && b1 == 0x44 && b2 == 0x54 {
        Some(MetadataID::FDT)
    } else if b0 == 0x53 && b1 == 0x44 && b2 == 0x54 {
        Some(MetadataID::SDT)
    } else if b0 == 0x48 && b1 == 0x53 && b2 == 0x48 {
        Some(MetadataID::HSH)
    } else if b0 == 0x52 && b1 == 0x53 && b2 == 0x44 {
        Some(MetadataID::RSD)
    } else if b0 == 0x52 && b1 == 0x53 && b2 == 0x50 {
        Some(MetadataID::RSP)
    } else {
        None
    }
}

/// The known kind of a record, if it has one.
pub fn meta_to_id(meta: &Metadata) -> (r: Option<MetadataID>)
    ensures
        r == meta_id(meta@),
{
    match meta {
        Metadata::FNM(_) => Some(MetadataID::FNM),
        Metadata::SNM(_) => Some(MetadataID::SNM),
        Metadata::FSZ(_) => Some(MetadataID::FSZ),
        Metadata::FDT(_) => Some(MetadataID::FDT),
        Metadata::SDT(_) => Some(MetadataID::SDT),
        Metadata::HSH(_) => Some(MetadataID::HSH),
        Metadata::RSD(_) => Some(MetadataID::RSD),
        Metadata::RSP(_) => Some(MetadataID::RSP),
        Metadata::Unknown(_, _) => None,
    }
}

/// A copy of a record.
pub fn clone_metadata(meta: &Metadata) -> (r: Metadata)
    ensures
        r@ == meta@,
{
    match meta {
        Metadata::FNM(d) => Metadata::FNM(clone_bytes(d)),
        Metadata::SNM(d) => Metadata::SNM(clone_bytes(d)),
        Metadata::FSZ(x) => Metadata::FSZ(*x),
        Metadata::FDT(x) => Metadata::FDT(*x),
        Metadata::SDT(x) => Metadata::SDT(*x),
        Metadata::HSH(h) => Metadata::HSH(clone_hash_bytes(h)),
        Metadata::RSD(x) => Metadata::RSD(*x),
        Metadata::RSP(x) => Metadata::RSP(*x),
        Metadata::Unknown(c, d) => {
            let code: [u8; 3] = [c[0], c[1], c[2]];
            Metadata::Unknown(code, clone_bytes(d))
        },
    }
}

impl Clone for Metadata {
    fn clone(&self) -> (r: Self)
        ensures
            r@ == self@,
    {
        clone_metadata(self)
    }
}

/// A copy of a list of records.
pub fn clone_metadata_list(meta: &[Metadata]) -> (r: Vec<Metadata>)
    ensures
        views(r@) == views(meta@),
{
    let n: usize = meta.len();
    let mut r: Vec<Metadata> = Vec::new();
    let mut i: usize = 0;
    while i < n
        invariant
            i <= n,
            n == meta@.len(),
            r@.len() == i,
            views(r@) == views(meta@.subrange(0, i as int)),
        decreases n - i,
    {
        let ghost before = r@;
        let copy: Metadata = clone_metadata(&meta[i]);
        let ghost copy_view = copy@;
        r.push(copy);
        proof {
            assert(before.len() == i);
            assert(r@.len() == i + 1);
            assert(r@[i as int]@ == copy_view);
            assert(views(r@).len() == i + 1);
            assert(views(meta@.subrange(0, i + 1)).len() == i + 1);
            assert forall|k: int| 0 <= k < i + 1 implies views(r@)[k] == views(
                meta@.subrange(0, i + 1),
            )[k] by {
                if k < i {
                    assert(r@[k] == before[k]);
                    assert(views(before)[k] == views(meta@.subrange(0, i as int))[k]);
                }
            }
            assert(views(r@) =~= views(meta@.subrange(0, i + 1)));
        }
        i += 1;
    }
    assert(meta@.subrange(0, n as int) =~= meta@);
    r
}

fn record_code_bytes(meta: &Metadata) -> (r: [u8; 3])
    ensures
        (r@[0], r@[1], r@[2]) == record_code(meta@),
{
    match meta {
        Metadata::Unknown(c, _) => [c[0], c[1], c[2]],
        Metadata::FNM(_) => id_to_bytes(MetadataID::FNM),
        Metadata::SNM(_) => id_to_bytes(MetadataID::SNM),
        Metadata::FSZ(_) => id_to_bytes(MetadataID::FSZ),
        Metadata::FDT(_) => id_to_bytes(MetadataID::FDT),
        Metadata::SDT(_) => id_to_bytes(MetadataID::SDT),
        Metadata::HSH(_) => id_to_bytes(MetadataID::HSH),
        Metadata::RSD(_) => id_to_bytes(MetadataID::RSD),
        Metadata::RSP(_) => id_to_bytes(MetadataID::RSP),
    }
}

/// The data bytes of a record, where they fit the length byte.
fn record_data_bytes(meta: &Metadata) -> (r: Option<Vec<u8>>)
    ensures
        r is Some <==> record_data(meta@).len() <= 255,
        r is Some ==> r->0@ == record_data(meta@),
{
    proof {
        lemma_data_len(meta@);
    }
    match meta {
        Metadata::FNM(d) | Metadata::SNM(d) | Metadata::Unknown(_, d) => {
            if d.len() <= 255 {
                Some(clone_bytes(d))
            } else {
                None
            }
        },
        Metadata::FSZ(x) => {
            let b: [u8; 8] = u64_to_be(*x);
            Some(copy_range_to_vec(b.as_slice(), 0, 8))
        },
        Metadata::FDT(x) | Metadata::SDT(x) => {
            let b: [u8; 8] = u64_to_be(i64_to_bits(*x));
            Some(copy_range_to_vec(b.as_slice(), 0, 8))
        },
        Metadata::HSH(h) => {
            let code_len: usize = match h.0 {
                HashType::SHA1 | HashType::SHA256 | HashType::SHA512 => 1,
                HashType::BLAKE2B_256 | HashType::BLAKE2B_512 => 2,
            };
            if h.1.len() <= 254 - code_len {
                hash_bytes_to_bytes(h.0, h.1.as_slice())
            } else {
                None
            }
        },
        Metadata::RSD(x) | Metadata::RSP(x) => {
            let mut r: Vec<u8> = Vec::new();
            r.push(*x);
            Some(r)
        },
    }
}

/// Writes the records into `buffer`, one after the other from its start,
/// and fills the rest with padding. Nothing is written where they do not fit.
pub fn to_bytes(meta: &[Metadata], buffer: &mut [u8]) -> (r: Result<(), Error>)
    ensures
        match r {
            Ok(()) => records_fit(views(meta@), old(buffer)@.len()) && final(buffer)@
                == payload_bytes(views(meta@), old(buffer)@.len()),
            Err(e) => e == Error::TooMuchMetaData && !records_fit(
                views(meta@),
                old(buffer)@.len(),
            ) && final(buffer)@ == old(buffer)@,
        },
{
    let ghost ms = views(meta@);
    let size: usize = buffer.len();
    let n: usize = meta.len();
    let mut total: usize = 0;
    let mut i: usize = 0;
    while i < n
        invariant
            i <= n,
            n == meta@.len(),
            ms == views(meta@),
            size == buffer@.len(),
            buffer@ == old(buffer)@,
            total == records_bytes(ms.subrange(0, i as int)).len(),
            total <= size,
            forall|k: int| 0 <= k < i ==> (#[trigger] record_data(ms[k])).len() <= 255,
        decreases n - i,
    {
        proof {
            lemma_records_bytes_push(ms.subrange(0, i as int), ms[i as int]);
            assert(ms.subrange(0, i as int).push(ms[i as int]) =~= ms.subrange(0, i + 1));
            lemma_records_bytes_prefix(ms, i + 1);
        }
        match record_data_bytes(&meta[i]) {
            None => {
                return Err(Error::TooMuchMetaData);
            },
            Some(data) => {
                if size - total < 4 + data.len() {
                    return Err(Error::TooMuchMetaData);
                }
                total += 4 + data.len();
            },
        }
        i += 1;
    }
    assert(ms.subrange(0, n as int) =~= ms);
    let mut cur: usize = 0;
    let mut i: usize = 0;
    while i < n
        invariant
            i <= n,
            n == meta@.len(),
            ms == views(meta@),
            size == buffer@.len(),
            records_fit(ms, size as nat),
            cur == records_bytes(ms.subrange(0, i as int)).len(),
            cur <= size,
            buffer@.subrange(0, cur as int) == records_bytes(ms.subrange(0, i as int)),
        decreases n - i,
    {
        proof {
            lemma_records_bytes_push(ms.subrange(0, i as int), ms[i as int]);
            assert(ms.subrange(0, i as int).push(ms[i as int]) =~= ms.subrange(0, i + 1));
            lemma_records_bytes_prefix(ms, i + 1);
        }
        let code: [u8; 3] = record_code_bytes(&meta[i]);
        let data: Vec<u8> = match record_data_bytes(&meta[i]) {
            Some(data) => data,
            None => {
                proof {
                    assert(record_data(ms[i as int]).len() <= 255);
                }
                Vec::new()
            },
        };
        let ghost before = buffer@;
        buffer[cur] = code[0];
        buffer[cur + 1] = code[1];
        buffer[cur + 2] = code[2];
        buffer[cur + 3] = data.len() as u8;
        copy_into(buffer, cur + 4, data.as_slice());
        proof {
            let next = cur + 4 + data@.len();
            assert(buffer@.subrange(0, next) =~= before.subrange(0, cur as int) + record_bytes(
                ms[i as int],
            ));
        }
        cur += 4 + data.len();
        i += 1;
    }
    assert(ms.subrange(0, n as int) =~= ms);
    let ghost written = buffer@;
    fill(buffer, cur, size, SBX_PADDING_BYTE);
    assert(buffer@ =~= payload_bytes(ms, size as nat));
    Ok(())
}

/// Reads the record at `bytes[at..]`.
fn read_record(bytes: &[u8], at: usize) -> (r: Option<Metadata>)
    requires
        at <= bytes@.len(),
    ensures
        match r {
            Some(m) => parse_record(bytes@.skip(at as int)) == Some(m@),
            None => parse_record(bytes@.skip(at as int)) is None,
        },
{
    let n: usize = bytes.len();
    let ghost b = bytes@.skip(at as int);
    if n - at < 4 {
        return None;
    }
    let len: usize = bytes[at + 3] as usize;
    if n - at - 4 < len {
        return None;
    }
    let from: usize = at + 4;
    let to: usize = from + len;
    let ghost data = b.subrange(4, 4 + b[3]);
    assert(data =~= bytes@.subrange(from as int, to as int));
    match id_from_bytes(bytes[at], bytes[at + 1], bytes[at + 2]) {
        Some(MetadataID::FNM) => Some(Metadata::FNM(copy_range_to_vec(bytes, from, to))),
        Some(MetadataID::SNM) => Some(Metadata::SNM(copy_range_to_vec(bytes, from, to))),
        Some(MetadataID::FSZ) => {
            if len == 8 {
                Some(Metadata::FSZ(u64_from_be(bytes, from)))
            } else {
                None
            }
        },
        Some(MetadataID::FDT) => {
            if len == 8 {
                Some(Metadata::FDT(i64_from_bits(u64_from_be(bytes, from))))
            } else {
                None
            }
        },
        Some(MetadataID::SDT) => {
            if len == 8 {
                Some(Metadata::SDT(i64_from_bits(u64_from_be(bytes, from))))
            } else {
                None
            }
        },
        Some(MetadataID::HSH) => {
            match hash_bytes_from_bytes(&bytes[from..to]) {
                Some(h) => Some(Metadata::HSH(h)),
                None => None,
            }
        },
        Some(MetadataID::RSD) => {
            if len == 1 {
                Some(Metadata::RSD(bytes[from]))
            } else {
                None
            }
        },
        Some(MetadataID::RSP) => {
            if len == 1 {
                Some(Metadata::RSP(bytes[from]))
            } else {
                None
            }
        },
        None => {
            if bytes[at] != SBX_PADDING_BYTE {
                let code: [u8; 3] = [bytes[at], bytes[at + 1], bytes[at + 2]];
                Some(Metadata::Unknown(code, copy_range_to_vec(bytes, from, to)))
            } else {
                None
            }
        },
    }
}

/// Reads the records of a payload.
pub fn from_bytes(bytes: &[u8]) -> (r: Result<Vec<Metadata>, Error>)
    ensures
        match r {
            Ok(meta) => parse_payload(bytes@) == Some(views(meta@)),
            Err(e) => e == Error::ParseError && parse_payload(bytes@) is None,
        },
{
    let n: usize = bytes.len();
    let mut res: Vec<Metadata> = Vec::new();
    let mut cur: usize = 0;
    assert(bytes@.skip(0) =~= bytes@);
    assert(views(res@) =~= Seq::<MetadataView>::empty());
    assert(forall|o: Option<Seq<MetadataView>>|
        o is Some ==> (#[trigger] prepend(Seq::empty(), o))->0 =~= o->0);
    while cur < n
        invariant
            cur <= n,
            n == bytes@.len(),
            parse_payload(bytes@) == prepend(views(res@), parse_payload(bytes@.skip(cur as int))),
        decreases n - cur,
    {
        let ghost b = bytes@.skip(cur as int);
        let ghost front = views(res@);
        if bytes[cur] == SBX_PADDING_BYTE {
            assert(b =~= bytes@.subrange(cur as int, n as int));
            if is_filled_with(bytes, cur, n, SBX_PADDING_BYTE) {
                assert(front + Seq::<MetadataView>::empty() =~= front);
                return Ok(res);
            } else {
                return Err(Error::ParseError);
            }
        }
        match read_record(bytes, cur) {
            None => {
                return Err(Error::ParseError);
            },
            Some(m) => {
                let used: usize = 4 + bytes[cur + 3] as usize;
                proof {
                    assert(b.skip(4 + b[3]) =~= bytes@.skip(cur + used));
                    let rest = parse_payload(bytes@.skip(cur + used));
                    assert(views(res@.push(m)) =~= front + seq![m@]);
                    if rest is Some {
                        assert(front + (seq![m@] + rest->0) =~= (front + seq![m@]) + rest->0);
                    }
                }
                res.push(m);
                cur += used;
            },
        }
    }
    proof {
        assert(bytes@.skip(cur as int) =~= Seq::<u8>::empty());
        assert(views(res@) + Seq::<MetadataView>::empty() =~= views(res@));
    }
    Ok(res)
}

/// The first record of a known kind.
pub fn get_meta_ref_by_id(id: MetadataID, meta: &[Metadata]) -> (r: Option<&Metadata>)
    ensures
        match r {
            Some(m) => first_with_id(views(meta@), id) is Some && *m == meta@[first_with_id(
                views(meta@),
                id,
            )->0],
            None => first_with_id(views(meta@), id) is None,
        },
        first_with_id(views(meta@), id) matches Some(i) ==> 0 <= i < meta@.len() && meta_id(
            meta@[i]@,
        ) == Some(id),
{
    let ghost ms = views(meta@);
    proof {
        lemma_first_with_id(ms, id);
    }
    let n: usize = meta.len();
    let mut i: usize = 0;
    while i < n
        invariant
            i <= n,
            n == meta@.len(),
            ms == views(meta@),
            first_with_id(ms.subrange(0, i as int), id) is None,
        decreases n - i,
    {
        proof {
            assert(ms.subrange(0, i + 1).drop_last() =~= ms.subrange(0, i as int));
            assert(ms.subrange(0, i + 1).last() == meta@[i as int]@);
        }
        match meta_to_id(&meta[i]) {
            Some(found) => {
                if found == id {
                    proof {
                        lemma_first_with_id_prefix(ms, id, i + 1);
                    }
                    return Some(&meta[i]);
                }
            },
            None => {},
        }
        i += 1;
    }
    assert(ms.subrange(0, n as int) =~= ms);
    proof {
        lemma_first_with_id(ms, id);
    }
    None
}

/// Position of the first record of a known kind.
pub fn find_meta_by_id(id: MetadataID, meta: &[Metadata]) -> (r: Option<usize>)
    ensures
        match r {
            Some(i) => first_with_id(views(meta@), id) == Some(i as int) && i < meta@.len()
                && meta_id(meta@[i as int]@) == Some(id),
            None => first_with_id(views(meta@), id) is None,
        },
{
    let ghost ms = views(meta@);
    let n: usize = meta.len();
    let mut i: usize = 0;
    while i < n
        invariant
            i <= n,
            n == meta@.len(),
            ms == views(meta@),
            first_with_id(ms.subrange(0, i as int), id) is None,
        decreases n - i,
    {
        proof {
            assert(ms.subrange(0, i + 1).drop_last() =~= ms.subrange(0, i as int));
            assert(ms.subrange(0, i + 1).last() == meta@[i as int]@);
        }
        match meta_to_id(&meta[i]) {
            Some(found) => {
                if found == id {
                    proof {
                        lemma_first_with_id_prefix(ms, id, i + 1);
                    }
                    return Some(i);
                }
            },
            None => {},
        }
        i += 1;
    }
    assert(ms.subrange(0, n as int) =~= ms);
    None
}

/// The first record of a known kind, to be changed in place.
pub fn get_meta_ref_mut_by_id(id: MetadataID, meta: &mut Vec<Metadata>) -> (r: Option<
    &mut Metadata,
>)
    ensures
        match r {
            Some(m) => first_with_id(views(old(meta)@), id) matches Some(i) && 0 <= i < old(meta)@.len() && *m == old(meta)@[i] && final(meta)@ == old(meta)@.update(i, *final(m)),
            None => first_with_id(views(old(meta)@), id) is None && final(meta)@ == old(meta)@,
        },
{
    match find_meta_by_id(id, meta.as_slice()) {
        Some(i) => Some(&mut meta[i]),
        None => None,
    }
}

/// The first record of a kind in a part of a list from its start is the first
/// in the whole list.
pub proof fn lemma_first_with_id_prefix(ms: Seq<MetadataView>, id: MetadataID, i: int)
    requires
        0 <= i <= ms.len(),
        first_with_id(ms.subrange(0, i), id) is Some,
    ensures
        first_with_id(ms, id) == first_with_id(ms.subrange(0, i), id),
    decreases ms.len() - i,
{
    if i == ms.len() {
        assert(ms.subrange(0, i) =~= ms);
    } else {
        assert(ms.subrange(0, i + 1).drop_last() =~= ms.subrange(0, i));
        lemma_first_with_id_prefix(ms, id, i + 1);
    }
}

/// Where the first record of a kind lies, and that none of that kind lies before it.
pub proof fn lemma_first_with_id(ms: Seq<MetadataView>, id: MetadataID)
    ensures
        match first_with_id(ms, id) {
            Some(i) => 0 <= i < ms.len() && meta_id(ms[i]) == Some(id) && forall|k: int|
                0 <= k < i ==> meta_id(#[trigger] ms[k]) != Some(id),
            None => forall|k: int| 0 <= k < ms.len() ==> meta_id(#[trigger] ms[k]) != Some(id),
        },
    decreases ms.len(),
{
    if ms.len() > 0 {
        lemma_first_with_id(ms.drop_last(), id);
        assert forall|k: int| 0 <= k < ms.len() - 1 implies ms.drop_last()[k] == ms[k] by {}
        match first_with_id(ms.drop_last(), id) {
            Some(i) => {
                assert(ms.drop_last()[i] == ms[i]);
                assert forall|k: int| 0 <= k < i implies meta_id(#[trigger] ms[k]) != Some(id) by {
                    assert(ms.drop_last()[k] == ms[k]);
                }
            },
            None => {
                assert forall|k: int| 0 <= k < ms.len() - 1 implies meta_id(#[trigger] ms[k])
                    != Some(id) by {
                    assert(ms.drop_last()[k] == ms[k]);
                }
            },
        }
    }
}

} // verus!
