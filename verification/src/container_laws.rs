//! What holds of every container that the encoder makes: its metadata block
//! is read back with the records it was made with, its last data block is
//! padded with zeros, and decoding it gives the file back.

use vstd::prelude::*;
use vstd::arithmetic::div_mod::lemma_fundamental_div_mod;
use vstd::arithmetic::div_mod::lemma_fundamental_div_mod_converse;
use crate::buffer::repeated;
use crate::container::ContainerSpec;
use crate::container::block_bytes;
use crate::container::chunk_count;
use crate::container::chunk_payload;
use crate::container::is_container_of;
use crate::container::last_seq_num;
use crate::container::layout_valid;
use crate::container::lemma_chunk_seq;
use crate::container::lemma_layout_round_trip;
use crate::container::lemma_max_index;
use crate::container::lemma_max_index_meta;
use crate::container::lemma_seq_of_chunk_bound;
use crate::container::max_index;
use crate::container::meta_block_bytes;
use crate::container::plain_header;
use crate::container::seq_at_index;
use crate::container::seq_of_chunk;
use crate::container::seq_payload;
use crate::container::slot_bytes;
use crate::container::slot_count;
use crate::container::slot_of;
use crate::container::write_index;
use crate::decode_core::chunk_in_container;
use crate::decode_core::chunks_in_container;
use crate::decode_core::data_block_ok;
use crate::decode_core::decode_result;
use crate::decode_core::first_bad_chunk;
use crate::general_error::ErrorKind;
use crate::sbx_block::BlockView;
use crate::sbx_block::DataView;
use crate::sbx_block::Error;
use crate::sbx_block::header_with_crc;
use crate::sbx_block::lemma_block_round_trip;
use crate::sbx_block::parse_block;
use crate::sbx_block::metadata::payload_bytes;
use crate::sbx_block::metadata::records_bytes;
use crate::sbx_block::metadata::records_fit;
use crate::sbx_block::metadata::records_valid;
use crate::sbx_specs::SBX_PADDING_BYTE;
use crate::sbx_specs::block_size;
use crate::sbx_specs::data_size;

verus! {

/// Whether a container can be made from `spec`: the layout is one that goes
/// with the version, the file UID has its six bytes, the records are valid
/// and fit into the metadata block, and there are sequence numbers enough.
pub open spec fn spec_valid(spec: ContainerSpec) -> bool {
    &&& layout_valid(spec.version, spec.data_par_burst)
    &&& spec.uid.len() == 6
    &&& records_valid(spec.records)
    &&& records_fit(spec.records, data_size(spec.version) as nat)
    &&& last_seq_num(chunk_count(spec.input.len() as int, spec.version), spec.data_par_burst)
        <= u32::MAX
}

/// The chunk of a file that data block `j` holds has the length of a payload.
pub proof fn lemma_chunk_payload_len(input: Seq<u8>, j: int, size: int)
    requires
        j >= 0,
        size >= 1,
        j * size <= input.len(),
    ensures
        chunk_payload(input, j, size).len() == size,
{
}

/// The metadata block of a container is read back from its start with the
/// records that the container was made with.
pub proof fn lemma_container_meta_block(c: Seq<u8>, spec: ContainerSpec)
    requires
        spec_valid(spec),
        is_container_of(c, spec),
    ensures
        parse_block(c) == Ok::<BlockView, Error>(
            BlockView {
                header: header_with_crc(
                    plain_header(spec.version, spec.uid, 0),
                    payload_bytes(spec.records, data_size(spec.version) as nat),
                ),
                data: DataView::Meta(spec.records),
            },
        ),
{
    let size = block_size(spec.version);
    let chunks = chunk_count(spec.input.len() as int, spec.version);
    let last = last_seq_num(chunks, spec.data_par_burst);
    lemma_max_index_meta(last, spec.data_par_burst);
    assert(max_index(last, spec.data_par_burst) >= 0) by {
        if let Some((m, n, b)) = spec.data_par_burst {
            assert(n * (1 + b) >= 0) by (nonlinear_arith)
                requires
                    n >= 0,
                    b >= 0,
            ;
        }
    }
    let count = slot_count(chunks, spec.data_par_burst);
    assert(count * size >= size) by (nonlinear_arith)
        requires
            count >= 1,
            size >= 0,
    ;
    let slot = slot_of(c, 0, spec.version);
    assert(slot == slot_bytes(spec, 0));
    assert(seq_at_index(0, spec.data_par_burst) == 0) by {
        if let Some((m, n, b)) = spec.data_par_burst {
            crate::sbx_block::position::lemma_meta_index_holds_no_data(
                0,
                1,
                m as int,
                n as int,
                b as int,
            );
            assert(crate::sbx_block::position::rs_meta_index(0, b as int) == 0) by (nonlinear_arith)
                requires
                    crate::sbx_block::position::rs_meta_index(0, b as int) == 0 * (1 + b),
            ;
        }
    }
    let b = BlockView {
        header: plain_header(spec.version, spec.uid, 0),
        data: DataView::Meta(spec.records),
    };
    let tail = c.skip(size);
    lemma_block_round_trip(b, repeated(0, data_size(spec.version) as nat), tail);
    assert(c =~= slot + tail);
}

/// Every data block of a container lies where the decoder looks for it and
/// holds its chunk of the file.
pub proof fn lemma_container_data_block(c: Seq<u8>, spec: ContainerSpec, j: int)
    requires
        spec_valid(spec),
        is_container_of(c, spec),
        0 <= j < chunk_count(spec.input.len() as int, spec.version),
    ensures
        data_block_ok(
            c,
            spec.version,
            spec.uid,
            spec.data_par_burst,
            seq_of_chunk(j, spec.data_par_burst),
        ),
        chunk_in_container(c, spec.version, spec.data_par_burst, j) == chunk_payload(
            spec.input,
            j,
            data_size(spec.version),
        ),
        j * data_size(spec.version) < spec.input.len() || spec.input.len() == 0,
{
    let version = spec.version;
    let dpb = spec.data_par_burst;
    let size = block_size(version);
    let ds = data_size(version);
    let len = spec.input.len() as int;
    let chunks = chunk_count(len, version);
    let last = last_seq_num(chunks, dpb);
    let seq_num = seq_of_chunk(j, dpb);
    lemma_chunk_seq(j, dpb);
    lemma_seq_of_chunk_bound(j, chunks, dpb);
    lemma_layout_round_trip(seq_num, dpb);
    lemma_max_index(seq_num, last, dpb);
    let index = write_index(seq_num, dpb);
    let count = slot_count(chunks, dpb);
    assert(0 <= index * size && (index + 1) * size <= count * size && (index + 1) * size == index
        * size + size) by (nonlinear_arith)
        requires
            0 <= index < count,
            size >= 0,
    ;
    let slot = slot_of(c, index, version);
    assert(slot == slot_bytes(spec, index));
    lemma_fundamental_div_mod(len + ds - 1, ds);
    assert(0 <= (len + ds - 1) % ds < ds) by (nonlinear_arith)
        requires
            ds >= 1,
    ;
    assert(j * ds < len) by (nonlinear_arith)
        requires
            len + ds - 1 == ds * chunks + (len + ds - 1) % ds,
            0 <= (len + ds - 1) % ds < ds,
            0 <= j < chunks,
            ds >= 1,
    ;
    let payload = seq_payload(spec.input, version, dpb, seq_num);
    assert(payload == chunk_payload(spec.input, j, ds)) by {
        if let Some((m, n, b)) = dpb {
            let mi = m as int;
            let t = m + n;
            lemma_fundamental_div_mod(j, mi);
            assert(0 <= j % mi < mi) by (nonlinear_arith)
                requires
                    mi >= 1,
            ;
            let q = j / mi;
            let r = j % mi;
            assert(q * t == t * q && q * mi == mi * q) by (nonlinear_arith);
            lemma_fundamental_div_mod_converse(seq_num - 1, t, q, r);
        }
    }
    lemma_chunk_payload_len(spec.input, j, ds);
    let b = BlockView {
        header: plain_header(version, spec.uid, seq_num as u32),
        data: DataView::Data,
    };
    lemma_block_round_trip(b, payload, Seq::<u8>::empty());
    assert(block_bytes(version, spec.uid, seq_num as u32, payload) + Seq::<u8>::empty()
        =~= block_bytes(version, spec.uid, seq_num as u32, payload));
    crate::sbx_block::header::lemma_header_round_trip(
        header_with_crc(plain_header(version, spec.uid, seq_num as u32), payload),
    );
    assert(slot.subrange(16, size) =~= payload);
}

/// A file, and one more chunk of it cut off and filled up with zeros.
proof fn lemma_append_chunk(input: Seq<u8>, before: Seq<u8>, this: Seq<u8>, a: int, ds: int)
    requires
        ds >= 1,
        0 <= a < input.len() || (a == 0 && input.len() == 0),
        before == input.subrange(0, a),
        this == chunk_payload(input, a / ds, ds),
        a % ds == 0,
    ensures
        a + ds <= input.len() ==> before + this == input.subrange(0, a + ds),
        a + ds > input.len() ==> (before + this).subrange(0, input.len() as int) == input,
        (before + this).len() == a + ds,
{
    let j = a / ds;
    lemma_fundamental_div_mod(a, ds);
    assert(j * ds == ds * j) by (nonlinear_arith);
    assert(j * ds == a);
    if a + ds <= input.len() {
        assert(before + this =~= input.subrange(0, a + ds));
    } else {
        assert((before + this).subrange(0, input.len() as int) =~= input);
    }
}

/// No data block of a container fails the decoder, and the payloads of the
/// first `k` data blocks are the file up to there; the last of them is
/// filled up with zeros.
pub proof fn lemma_container_chunks(c: Seq<u8>, spec: ContainerSpec, k: int)
    requires
        spec_valid(spec),
        is_container_of(c, spec),
        0 <= k <= chunk_count(spec.input.len() as int, spec.version),
    ensures
        first_bad_chunk(c, spec.version, spec.uid, spec.data_par_burst, k) is None,
        chunks_in_container(c, spec.version, spec.data_par_burst, k).len() == k * data_size(
            spec.version,
        ),
        k * data_size(spec.version) <= spec.input.len() ==> chunks_in_container(
            c,
            spec.version,
            spec.data_par_burst,
            k,
        ) == spec.input.subrange(0, k * data_size(spec.version)),
        k * data_size(spec.version) > spec.input.len() ==> chunks_in_container(
            c,
            spec.version,
            spec.data_par_burst,
            k,
        ).subrange(0, spec.input.len() as int) == spec.input,
    decreases k,
{
    let ds = data_size(spec.version);
    let len = spec.input.len() as int;
    if k > 0 {
        lemma_container_chunks(c, spec, k - 1);
        lemma_container_data_block(c, spec, k - 1);
        let before = chunks_in_container(c, spec.version, spec.data_par_burst, k - 1);
        let this = chunk_in_container(c, spec.version, spec.data_par_burst, k - 1);
        let all = chunks_in_container(c, spec.version, spec.data_par_burst, k);
        assert(all == before + this);
        let a = (k - 1) * ds;
        assert(k * ds == a + ds && a >= 0) by (nonlinear_arith)
            requires
                a == (k - 1) * ds,
                k >= 1,
                ds >= 1,
        ;
        assert(ds * (k - 1) == a) by (nonlinear_arith)
            requires
                a == (k - 1) * ds,
        ;
        lemma_fundamental_div_mod_converse(a, ds, k - 1, 0);
        lemma_append_chunk(spec.input, before, this, a, ds);
    } else {
        assert(k * ds == 0) by (nonlinear_arith)
            requires
                k == 0,
        ;
        assert(chunks_in_container(c, spec.version, spec.data_par_burst, k)
            =~= spec.input.subrange(0, 0));
    }
}

/// Decoding a container gives back the file that it was made from.
pub proof fn lemma_encode_decode(c: Seq<u8>, spec: ContainerSpec)
    requires
        spec_valid(spec),
        is_container_of(c, spec),
    ensures
        decode_result(c, spec.version, spec.uid, spec.data_par_burst, spec.input.len() as int)
            == Ok::<Seq<u8>, ErrorKind>(spec.input),
{
    let ds = data_size(spec.version);
    let len = spec.input.len() as int;
    let chunks = chunk_count(len, spec.version);
    lemma_fundamental_div_mod(len + ds - 1, ds);
    assert(0 <= (len + ds - 1) % ds < ds) by (nonlinear_arith)
        requires
            ds >= 1,
    ;
    assert(chunks >= 0 && chunks * ds >= len) by (nonlinear_arith)
        requires
            len + ds - 1 == ds * chunks + (len + ds - 1) % ds,
            0 <= (len + ds - 1) % ds < ds,
            len >= 0,
            ds >= 1,
    ;
    lemma_container_chunks(c, spec, chunks);
    let all = chunks_in_container(c, spec.version, spec.data_par_burst, chunks);
    if chunks * ds <= len {
        assert(all.subrange(0, len) =~= spec.input);
    }
}

/// The last data block of a container is filled up with zeros behind the end
/// of the file, and the metadata block with the padding byte behind its
/// records.
pub proof fn lemma_container_padding(c: Seq<u8>, spec: ContainerSpec)
    requires
        spec_valid(spec),
        is_container_of(c, spec),
    ensures
        ({
            let ds = data_size(spec.version);
            let len = spec.input.len() as int;
            let chunks = chunk_count(len, spec.version);
            let used = records_bytes(spec.records).len() as int;
            &&& forall|i: int|
                16 + used <= i < block_size(spec.version) ==> c[i] == SBX_PADDING_BYTE
            &&& chunks > 0 ==> forall|i: int|
                len - (chunks - 1) * ds <= i < ds ==> (#[trigger] chunk_in_container(
                    c,
                    spec.version,
                    spec.data_par_burst,
                    chunks - 1,
                )[i]) == 0
        }),
{
    let ds = data_size(spec.version);
    let size = block_size(spec.version);
    let len = spec.input.len() as int;
    let chunks = chunk_count(len, spec.version);
    let used = records_bytes(spec.records).len() as int;
    lemma_container_meta_block(c, spec);
    let payload = payload_bytes(spec.records, ds as nat);
    let header = header_with_crc(plain_header(spec.version, spec.uid, 0), payload);
    crate::sbx_block::header::lemma_header_round_trip(header);
    let last = last_seq_num(chunks, spec.data_par_burst);
    lemma_max_index_meta(last, spec.data_par_burst);
    assert(max_index(last, spec.data_par_burst) >= 0) by {
        if let Some((m, n, b)) = spec.data_par_burst {
            assert(n * (1 + b) >= 0) by (nonlinear_arith)
                requires
                    n >= 0,
                    b >= 0,
            ;
        }
    }
    let count = slot_count(chunks, spec.data_par_burst);
    assert(count * size >= size) by (nonlinear_arith)
        requires
            count >= 1,
            size >= 0,
    ;
    assert(seq_at_index(0, spec.data_par_burst) == 0) by {
        if let Some((m, n, b)) = spec.data_par_burst {
            crate::sbx_block::position::lemma_meta_index_holds_no_data(
                0,
                1,
                m as int,
                n as int,
                b as int,
            );
            assert(crate::sbx_block::position::rs_meta_index(0, b as int) == 0) by (nonlinear_arith)
                requires
                    crate::sbx_block::position::rs_meta_index(0, b as int) == 0 * (1 + b),
            ;
        }
    }
    let slot = slot_of(c, 0, spec.version);
    assert(slot == meta_block_bytes(spec.version, spec.uid, spec.records));
    assert forall|i: int| 16 + used <= i < size implies c[i] == SBX_PADDING_BYTE by {
        assert(c[i] == slot[i]);
        assert(slot[i] == payload[i - 16]);
    }
    if chunks > 0 {
        lemma_container_data_block(c, spec, chunks - 1);
        lemma_fundamental_div_mod(len + ds - 1, ds);
        assert(0 <= (len + ds - 1) % ds < ds) by (nonlinear_arith)
            requires
                ds >= 1,
        ;
        assert((chunks - 1) * ds < len <= chunks * ds && chunks * ds == (chunks - 1) * ds + ds)
            by (nonlinear_arith)
            requires
                len + ds - 1 == ds * chunks + (len + ds - 1) % ds,
                0 <= (len + ds - 1) % ds < ds,
                chunks > 0,
                ds >= 1,
        ;
    }
}

} // verus!
