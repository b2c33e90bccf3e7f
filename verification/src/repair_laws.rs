//! What a repair achieves: a container of which, in every complete stripe,
//! no more shards are spoilt than the stripe has parity shards, is made
//! whole again.
//!
//! The laws here rest on two things that are taken for granted about the
//! Reed-Solomon codec, and that are said in full where they are used: the
//! parity shards of a stripe are as long as its data shards, and a stripe
//! of which enough shards are left is restored by the codec.

use vstd::prelude::*;
use vstd::arithmetic::div_mod::lemma_fundamental_div_mod;
use vstd::arithmetic::div_mod::lemma_fundamental_div_mod_converse;
use crate::container::ContainerSpec;
use crate::container::lemma_seq_position;
use crate::container::parity_shaped;
use crate::container::block_bytes;
use crate::container::chunk_count;
use crate::container::is_container_of;
use crate::container::last_seq_num;
use crate::container::lemma_layout_index_round_trip;
use crate::container::lemma_layout_round_trip;
use crate::container::lemma_max_index;
use crate::container::plain_header;
use crate::container::seq_at_index;
use crate::container::seq_payload;
use crate::container::slot_bytes;
use crate::container::slot_count;
use crate::container::slot_of;
use crate::container::stripe_payloads;
use crate::container::write_index;
use crate::container_laws::spec_valid;
use crate::decode_core::data_block_ok;
use crate::repair_core::RepairSpec;
use crate::repair_core::blocks_to_repair;
use crate::container::lemma_max_index_meta;
use crate::container::last_meta_index;
use crate::decode_core::decode_result;
use crate::general_error::ErrorKind;
use crate::repair_core::meta_repaired;
use crate::repair_core::meta_slot_ok;
use crate::repair_core::ref_block_bytes;
use crate::repair_core::repair_spec;
use crate::repair_core::repaired;
use crate::repair_core::stripes_repaired;
use crate::container::meta_block_bytes;
use crate::container::total_block_count;
use crate::sbx_block::position::meta_all_write_pos_s;
use crate::sbx_block::position::rs_meta_index;
use crate::sbx_block::position::lemma_meta_index_holds_no_data;
use crate::repair_core::shard_rewritten;
use crate::repair_core::shard_seq_num;
use crate::repair_core::stripe_repairable;
use crate::repair_core::stripe_repaired;
use crate::repair_core::stripe_shards;
use crate::repair_core::stripe_written;
use crate::repair_core::with_slot;
use crate::rs_codec::present_count;
use crate::rs_codec::rs_parity;
use crate::rs_codec::rs_reconstructed;
use crate::rs_codec::rs_stripe;
use crate::rs_codec::shards_agree;
use crate::rs_codec::shards_have_len;
use crate::sbx_block::BlockView;
use crate::sbx_block::DataView;
use crate::sbx_block::header_with_crc;
use crate::sbx_block::lemma_block_round_trip;
use crate::sbx_specs::Version;
use crate::sbx_specs::block_size;
use crate::sbx_specs::data_size;

verus! {

/// What is taken for granted about the codec when a stripe is mended: where
/// the shards that are left of a stripe are as many as it has data shards,
/// the codec restores the stripe.
pub open spec fn codec_restores(m: nat, n: nat, len: nat) -> bool {
    forall|shards: Seq<Option<Seq<u8>>>, data: Seq<Seq<u8>>|
        shards.len() == m + n && data.len() == m && shards_have_len(data, len) && present_count(
            shards,
        ) >= m && #[trigger] shards_agree(shards, rs_stripe(m, n, data)) ==> rs_reconstructed(
            m,
            n,
            shards,
        ) == rs_stripe(m, n, data)
}

/// Replacing a slot changes that slot and no other.
pub proof fn lemma_with_slot(c: Seq<u8>, index: int, version: Version, bytes: Seq<u8>, q: int)
    requires
        0 <= index,
        (index + 1) * block_size(version) <= c.len(),
        bytes.len() == block_size(version),
        0 <= q,
        (q + 1) * block_size(version) <= c.len(),
    ensures
        with_slot(c, index, version, bytes).len() == c.len(),
        slot_of(with_slot(c, index, version, bytes), q, version) == (if q == index {
            bytes
        } else {
            slot_of(c, q, version)
        }),
{
    let size = block_size(version);
    assert(index * size >= 0 && (index + 1) * size == index * size + size && q * size >= 0 && (q
        + 1) * size == q * size + size) by (nonlinear_arith)
        requires
            index >= 0,
            q >= 0,
            size >= 0,
    ;
    assert(q < index ==> (q + 1) * size <= index * size) by (nonlinear_arith)
        requires
            size >= 0,
    ;
    assert(q > index ==> (index + 1) * size <= q * size) by (nonlinear_arith)
        requires
            size >= 0,
    ;
    let w = with_slot(c, index, version, bytes);
    if q == index {
        assert(slot_of(w, q, version) =~= bytes);
    } else {
        assert(slot_of(w, q, version) =~= slot_of(c, q, version));
    }
}

/// Two containers of the same length whose slots are the same are the same.
pub proof fn lemma_slots_equal(a: Seq<u8>, b: Seq<u8>, version: Version, count: int)
    requires
        count >= 0,
        a.len() == count * block_size(version),
        b.len() == a.len(),
        forall|i: int| 0 <= i < count ==> #[trigger] slot_of(a, i, version) == slot_of(b, i, version),
    ensures
        a == b,
{
    let size = block_size(version);
    assert forall|p: int| 0 <= p < a.len() implies a[p] == b[p] by {
        let i = p / size;
        let r = p % size;
        lemma_fundamental_div_mod(p, size);
        assert(0 <= r < size) by (nonlinear_arith)
            requires
                r == p % size,
                size >= 1,
        ;
        assert(0 <= i < count && i * size == size * i && (i + 1) * size == size * i + size)
            by (nonlinear_arith)
            requires
                p == size * i + r,
                0 <= r < size,
                0 <= p < count * size,
                size >= 1,
        ;
        assert(slot_of(a, i, version) == slot_of(b, i, version));
        assert(slot_of(a, i, version)[r] == a[p]);
        assert(slot_of(b, i, version)[r] == b[p]);
    }
    assert(a =~= b);
}

/// Every block of a container, data or parity, lies whole in its slot and
/// can be used.
pub proof fn lemma_container_block(c: Seq<u8>, spec: ContainerSpec, seq_num: int)
    requires
        spec_valid(spec),
        parity_shaped(spec),
        is_container_of(c, spec),
        1 <= seq_num <= last_seq_num(
            chunk_count(spec.input.len() as int, spec.version),
            spec.data_par_burst,
        ),
    ensures
        ({
            let index = write_index(seq_num, spec.data_par_burst);
            let payload = seq_payload(spec.input, spec.version, spec.data_par_burst, seq_num);
            &&& 0 <= index < slot_count(
                chunk_count(spec.input.len() as int, spec.version),
                spec.data_par_burst,
            )
            &&& (index + 1) * block_size(spec.version) <= c.len()
            &&& seq_at_index(index, spec.data_par_burst) == seq_num
            &&& payload.len() == data_size(spec.version)
            &&& slot_of(c, index, spec.version) == block_bytes(
                spec.version,
                spec.uid,
                seq_num as u32,
                payload,
            )
            &&& slot_of(c, index, spec.version).subrange(16, block_size(spec.version)) == payload
            &&& data_block_ok(c, spec.version, spec.uid, spec.data_par_burst, seq_num)
        }),
{
    let version = spec.version;
    let dpb = spec.data_par_burst;
    let size = block_size(version);
    let ds = data_size(version);
    let len = spec.input.len() as int;
    let chunks = chunk_count(len, version);
    let last = last_seq_num(chunks, dpb);
    lemma_layout_round_trip(seq_num, dpb);
    lemma_max_index(seq_num, last, dpb);
    let index = write_index(seq_num, dpb);
    let count = slot_count(chunks, dpb);
    assert(0 <= index * size && (index + 1) * size <= count * size && (index + 1) * size == index
        * size + size) by (nonlinear_arith)
        requires
            0 <= index < count,
            size >= 0,
    ;
    let slot = slot_of(c, index, version);
    assert(slot == slot_bytes(spec, index));
    let payload = seq_payload(spec.input, version, dpb, seq_num);
    lemma_fundamental_div_mod(len + ds - 1, ds);
    assert(0 <= (len + ds - 1) % ds < ds) by (nonlinear_arith)
        requires
            ds >= 1,
    ;
    assert(chunks >= 0 && (chunks > 0 ==> (chunks - 1) * ds < len)) by (nonlinear_arith)
        requires
            len + ds - 1 == ds * chunks + (len + ds - 1) % ds,
            0 <= (len + ds - 1) % ds < ds,
            len >= 0,
            ds >= 1,
    ;
    assert(payload.len() == ds) by {
        match dpb {
            None => {
                assert((seq_num - 1) * ds <= (chunks - 1) * ds) by (nonlinear_arith)
                    requires
                        seq_num - 1 <= chunks - 1,
                        ds >= 0,
                ;
            },
            Some((m, n, b)) => {
                let mi = m as int;
                let t = m + n;
                let stripe = (seq_num - 1) / t;
                let within = (seq_num - 1) % t;
                lemma_seq_position(seq_num, chunks, mi, n as int);
                if within < mi {
                    let j = stripe * mi + within;
                    assert(j * ds <= (chunks - 1) * ds) by (nonlinear_arith)
                        requires
                            j <= chunks - 1,
                            ds >= 0,
                    ;
                } else {
                    let parity = rs_parity(
                        m as nat,
                        n as nat,
                        stripe_payloads(spec.input, stripe, mi, ds),
                    );
                    assert(parity.len() == n);
                    assert(parity[within - mi].len() == ds);
                }
            },
        }
    }
    let b = BlockView { header: plain_header(version, spec.uid, seq_num as u32), data: DataView::Data };
    lemma_block_round_trip(b, payload, Seq::<u8>::empty());
    assert(block_bytes(version, spec.uid, seq_num as u32, payload) + Seq::<u8>::empty()
        =~= block_bytes(version, spec.uid, seq_num as u32, payload));
    crate::sbx_block::header::lemma_header_round_trip(
        header_with_crc(plain_header(version, spec.uid, seq_num as u32), payload),
    );
    assert(slot.subrange(16, size) =~= payload);
}

/// Whether a repair works on the container that `spec` describes, and
/// writes what it mends.
pub open spec fn repair_matches(rspec: RepairSpec, spec: ContainerSpec) -> bool {
    &&& rspec.version == spec.version
    &&& rspec.uid == spec.uid
    &&& spec.data_par_burst == Some((rspec.data_shards, rspec.parity_shards, rspec.burst))
    &&& !rspec.dry_run
}

/// Slot of shard `i` of stripe `k`.
pub open spec fn shard_index(rspec: RepairSpec, k: int, i: int) -> int {
    write_index(shard_seq_num(rspec, k, i), rspec.data_par_burst())
}

/// Whether the shards of stripe `k` are as they were made or cannot be used,
/// and enough of them can be used for the stripe to be mended.
pub open spec fn stripe_mendable(x: Seq<u8>, c0: Seq<u8>, rspec: RepairSpec, k: int) -> bool {
    &&& x.len() == c0.len()
    &&& forall|i: int|
        0 <= i < rspec.total_shards() ==> slot_of(x, #[trigger] shard_index(rspec, k, i), rspec.version)
            == slot_of(c0, shard_index(rspec, k, i), rspec.version) || !data_block_ok(
            x,
            rspec.version,
            rspec.uid,
            rspec.data_par_burst(),
            shard_seq_num(rspec, k, i),
        )
    &&& stripe_repairable(stripe_shards(x, rspec, k), rspec)
}

/// Whether slot `q` is that of a shard among the first `i` of stripe `k`
/// that is missing.
pub open spec fn slot_mended_upto(
    rspec: RepairSpec,
    shards: Seq<Option<Seq<u8>>>,
    k: int,
    q: int,
    i: int,
) -> bool
    decreases i,
{
    if i <= 0 {
        false
    } else {
        slot_mended_upto(rspec, shards, k, q, i - 1) || (q == shard_index(rspec, k, i - 1)
            && shards[i - 1] is None)
    }
}

/// The shards of a complete stripe of a container are the stripe that the
/// codec makes of the payloads of its data shards.
pub proof fn lemma_stripe_of_container(c0: Seq<u8>, spec: ContainerSpec, rspec: RepairSpec, k: int, i: int)
    requires
        spec_valid(spec),
        parity_shaped(spec),
        is_container_of(c0, spec),
        repair_matches(rspec, spec),
        0 <= k < chunk_count(spec.input.len() as int, spec.version) / (rspec.data_shards as int),
        0 <= i < rspec.total_shards(),
    ensures
        ({
            let m = rspec.data_shards as nat;
            let n = rspec.parity_shards as nat;
            let data = stripe_payloads(
                spec.input,
                k,
                rspec.data_shards as int,
                data_size(spec.version),
            );
            let seq_num = shard_seq_num(rspec, k, i);
            let index = shard_index(rspec, k, i);
            &&& 1 <= seq_num <= last_seq_num(
                chunk_count(spec.input.len() as int, spec.version),
                spec.data_par_burst,
            )
            &&& rs_stripe(m, n, data).len() == m + n
            &&& data.len() == m
            &&& shards_have_len(data, data_size(spec.version) as nat)
            &&& rs_stripe(m, n, data)[i] == seq_payload(
                spec.input,
                spec.version,
                spec.data_par_burst,
                seq_num,
            )
            &&& rs_stripe(m, n, data)[i].len() == data_size(spec.version)
            &&& 0 <= index
            &&& (index + 1) * block_size(spec.version) <= c0.len()
            &&& seq_at_index(index, spec.data_par_burst) == seq_num
            &&& slot_of(c0, index, spec.version) == block_bytes(
                spec.version,
                spec.uid,
                seq_num as u32,
                rs_stripe(m, n, data)[i],
            )
            &&& slot_of(c0, index, spec.version).subrange(16, block_size(spec.version))
                == rs_stripe(m, n, data)[i]
        }),
{
    let m = rspec.data_shards as int;
    let n = rspec.parity_shards as int;
    let t = m + n;
    let ds = data_size(spec.version);
    let len = spec.input.len() as int;
    let chunks = chunk_count(len, spec.version);
    let full = chunks / m;
    let seq_num = shard_seq_num(rspec, k, i);
    let data = stripe_payloads(spec.input, k, m, ds);
    lemma_fundamental_div_mod(chunks, m);
    assert(0 <= chunks % m < m) by (nonlinear_arith)
        requires
            m >= 1,
    ;
    assert(k * t + i + 1 <= full * t + chunks % m && k * t == t * k && (k + 1) * m <= chunks)
        by (nonlinear_arith)
        requires
            0 <= k < full,
            0 <= i < t,
            chunks % m >= 0,
            chunks == m * full + chunks % m,
            m >= 1,
    ;
    lemma_fundamental_div_mod_converse(seq_num - 1, t, k, i);
    lemma_container_block(c0, spec, seq_num);
    lemma_fundamental_div_mod(len + ds - 1, ds);
    assert(0 <= (len + ds - 1) % ds < ds) by (nonlinear_arith)
        requires
            ds >= 1,
    ;
    assert((chunks - 1) * ds < len) by (nonlinear_arith)
        requires
            len + ds - 1 == ds * chunks + (len + ds - 1) % ds,
            0 <= (len + ds - 1) % ds < ds,
            chunks >= 1,
            ds >= 1,
    ;
    assert forall|x: int| 0 <= x < data.len() implies (#[trigger] data[x]).len() == ds by {
        assert((k * m + x) * ds <= (chunks - 1) * ds) by (nonlinear_arith)
            requires
                0 <= x < m,
                (k + 1) * m <= chunks,
                k >= 0,
                ds >= 0,
        ;
        assert(k * m + x >= 0) by (nonlinear_arith)
            requires
                k >= 0,
                m >= 0,
                x >= 0,
        ;
    }
    let parity = rs_parity(m as nat, n as nat, data);
    assert(parity.len() == n);
}

/// The slots of a stripe that is being mended: a slot whose shard is missing
/// is filled with the block that it held when the container was made, and
/// every other slot is left as it is.
pub proof fn lemma_stripe_written(
    x: Seq<u8>,
    c0: Seq<u8>,
    spec: ContainerSpec,
    rspec: RepairSpec,
    k: int,
    i: int,
    q: int,
)
    requires
        spec_valid(spec),
        parity_shaped(spec),
        is_container_of(c0, spec),
        repair_matches(rspec, spec),
        codec_restores(
            rspec.data_shards as nat,
            rspec.parity_shards as nat,
            data_size(spec.version) as nat,
        ),
        0 <= k < chunk_count(spec.input.len() as int, spec.version) / (rspec.data_shards as int),
        stripe_mendable(x, c0, rspec, k),
        0 <= i <= rspec.total_shards(),
        0 <= q,
        (q + 1) * block_size(spec.version) <= x.len(),
    ensures
        stripe_written(x, rspec, stripe_shards(x, rspec, k), k, i).len() == x.len(),
        slot_of(
            stripe_written(x, rspec, stripe_shards(x, rspec, k), k, i),
            q,
            spec.version,
        ) == (if slot_mended_upto(rspec, stripe_shards(x, rspec, k), k, q, i) {
            slot_of(c0, q, spec.version)
        } else {
            slot_of(x, q, spec.version)
        }),
    decreases i,
{
    let shards = stripe_shards(x, rspec, k);
    let m = rspec.data_shards as nat;
    let n = rspec.parity_shards as nat;
    let ds = data_size(spec.version);
    let data = stripe_payloads(spec.input, k, rspec.data_shards as int, ds);
    let whole = rs_stripe(m, n, data);
    if i > 0 {
        lemma_stripe_written(x, c0, spec, rspec, k, i - 1, q);
        lemma_stripe_restored(x, c0, spec, rspec, k);
        lemma_stripe_of_container(c0, spec, rspec, k, i - 1);
        let before = stripe_written(x, rspec, shards, k, i - 1);
        let index = shard_index(rspec, k, i - 1);
        if shards[i - 1] is None {
            assert(shard_rewritten(x, rspec, shards, k, i - 1));
            let bytes = block_bytes(
                spec.version,
                spec.uid,
                shard_seq_num(rspec, k, i - 1) as u32,
                rs_reconstructed(m, n, shards)[i - 1],
            );
            assert(bytes == slot_of(c0, index, spec.version));
            assert(index * block_size(spec.version) >= 0 && (index + 1) * block_size(
                spec.version,
            ) == index * block_size(spec.version) + block_size(spec.version))
                by (nonlinear_arith)
                requires
                    index >= 0,
            ;
            lemma_with_slot(before, index, spec.version, bytes, q);
        }
    }
}

/// What is left of a stripe that can be mended is restored by the codec to
/// the stripe as it was made.
pub proof fn lemma_stripe_restored(
    x: Seq<u8>,
    c0: Seq<u8>,
    spec: ContainerSpec,
    rspec: RepairSpec,
    k: int,
)
    requires
        spec_valid(spec),
        parity_shaped(spec),
        is_container_of(c0, spec),
        repair_matches(rspec, spec),
        codec_restores(
            rspec.data_shards as nat,
            rspec.parity_shards as nat,
            data_size(spec.version) as nat,
        ),
        0 <= k < chunk_count(spec.input.len() as int, spec.version) / (rspec.data_shards as int),
        stripe_mendable(x, c0, rspec, k),
    ensures
        rs_reconstructed(
            rspec.data_shards as nat,
            rspec.parity_shards as nat,
            stripe_shards(x, rspec, k),
        ) == rs_stripe(
            rspec.data_shards as nat,
            rspec.parity_shards as nat,
            stripe_payloads(spec.input, k, rspec.data_shards as int, data_size(spec.version)),
        ),
{
    let shards = stripe_shards(x, rspec, k);
    let m = rspec.data_shards as nat;
    let n = rspec.parity_shards as nat;
    let ds = data_size(spec.version);
    let data = stripe_payloads(spec.input, k, rspec.data_shards as int, ds);
    let whole = rs_stripe(m, n, data);
    lemma_stripe_of_container(c0, spec, rspec, k, 0);
    assert forall|i: int| 0 <= i < shards.len() implies ((#[trigger] shards[i]) matches Some(
        shard,
    ) ==> shard == whole[i]) by {
        lemma_stripe_of_container(c0, spec, rspec, k, i);
        if shards[i] is Some {
            let index = shard_index(rspec, k, i);
            assert(slot_of(x, index, rspec.version) == slot_of(c0, index, rspec.version));
        }
    }
    assert(shards_agree(shards, whole));
}

/// Whether slot `q` holds a shard of stripe `k`.
pub open spec fn slot_in_stripe(rspec: RepairSpec, q: int, k: int) -> bool {
    let seq_num = seq_at_index(q, rspec.data_par_burst());
    seq_num >= 1 && (seq_num - 1) / rspec.total_shards() == k
}

/// Which slots are filled when a stripe is mended: those of its shards that
/// are missing.
pub proof fn lemma_slot_mended(
    rspec: RepairSpec,
    shards: Seq<Option<Seq<u8>>>,
    k: int,
    q: int,
    i: int,
)
    requires
        rspec.data_shards >= 1,
        k >= 0,
        q >= 0,
        0 <= i <= rspec.total_shards(),
    ensures
        ({
            let seq_num = seq_at_index(q, rspec.data_par_burst());
            let j = (seq_num - 1) % rspec.total_shards();
            slot_mended_upto(rspec, shards, k, q, i) == (slot_in_stripe(rspec, q, k) && j < i
                && shards[j] is None)
        }),
    decreases i,
{
    let dpb = rspec.data_par_burst();
    let t = rspec.total_shards();
    if i > 0 {
        lemma_slot_mended(rspec, shards, k, q, i - 1);
        let seq_i = shard_seq_num(rspec, k, i - 1);
        assert(k * t >= 0 && k * t == t * k) by (nonlinear_arith)
            requires
                k >= 0,
                t >= 0,
        ;
        lemma_fundamental_div_mod_converse(seq_i - 1, t, k, i - 1);
        lemma_layout_round_trip(seq_i, dpb);
        let seq_q = seq_at_index(q, dpb);
        if seq_q != 0 {
            lemma_layout_index_round_trip(q, dpb);
        }
        if seq_q >= 1 {
            lemma_fundamental_div_mod(seq_q - 1, t);
            assert(0 <= (seq_q - 1) % t < t) by (nonlinear_arith)
                requires
                    t >= 1,
            ;
            assert(t * ((seq_q - 1) / t) == ((seq_q - 1) / t) * t) by (nonlinear_arith);
        }
    }
}

/// A stripe that can be mended is, once mended, as it was made; the slots
/// of other stripes are left as they are.
pub proof fn lemma_stripe_repaired(
    x: Seq<u8>,
    c0: Seq<u8>,
    spec: ContainerSpec,
    rspec: RepairSpec,
    k: int,
    q: int,
)
    requires
        spec_valid(spec),
        parity_shaped(spec),
        is_container_of(c0, spec),
        repair_matches(rspec, spec),
        codec_restores(
            rspec.data_shards as nat,
            rspec.parity_shards as nat,
            data_size(spec.version) as nat,
        ),
        0 <= k < chunk_count(spec.input.len() as int, spec.version) / (rspec.data_shards as int),
        stripe_mendable(x, c0, rspec, k),
        0 <= q,
        (q + 1) * block_size(spec.version) <= x.len(),
    ensures
        stripe_repaired(x, rspec, k).len() == x.len(),
        slot_of(stripe_repaired(x, rspec, k), q, spec.version) == (if slot_in_stripe(
            rspec,
            q,
            k,
        ) {
            slot_of(c0, q, spec.version)
        } else {
            slot_of(x, q, spec.version)
        }),
{
    let t = rspec.total_shards();
    let shards = stripe_shards(x, rspec, k);
    lemma_stripe_written(x, c0, spec, rspec, k, t, q);
    lemma_slot_mended(rspec, shards, k, q, t);
    if slot_in_stripe(rspec, q, k) {
        let seq_num = seq_at_index(q, rspec.data_par_burst());
        let j = (seq_num - 1) % t;
        lemma_fundamental_div_mod(seq_num - 1, t);
        assert(0 <= j < t) by (nonlinear_arith)
            requires
                j == (seq_num - 1) % t,
                t >= 1,
        ;
        assert(t * k == k * t) by (nonlinear_arith);
        assert(shard_seq_num(rspec, k, j) == seq_num);
        lemma_layout_index_round_trip(q, rspec.data_par_burst());
        assert(shard_index(rspec, k, j) == q);
        if shards[j] is Some {
            assert(slot_of(x, shard_index(rspec, k, j), rspec.version) == slot_of(
                c0,
                shard_index(rspec, k, j),
                rspec.version,
            ));
        }
    }
}

/// Whether a container `c` is the container `c0` with shards spoilt, and no
/// more of them in any stripe than a repair can make up for: `c` is as long
/// as `c0`; every slot that holds a shard of a complete stripe is as it was
/// made or holds nothing that can be used; every other slot is as it was
/// made; and of every complete stripe as many shards can be used as it has
/// data shards.
pub open spec fn spoilt_within_reach(c: Seq<u8>, c0: Seq<u8>, spec: ContainerSpec, rspec: RepairSpec) -> bool {
    let chunks = chunk_count(spec.input.len() as int, spec.version);
    let stripes = chunks / (rspec.data_shards as int);
    &&& c.len() == c0.len()
    &&& forall|q: int|
        0 <= q < slot_count(chunks, spec.data_par_burst) ==> #[trigger] slot_of(c, q, spec.version)
            == slot_of(c0, q, spec.version) || (seq_at_index(q, spec.data_par_burst) >= 1 && (
        seq_at_index(q, spec.data_par_burst) - 1) / rspec.total_shards() < stripes
            && !data_block_ok(
            c,
            spec.version,
            spec.uid,
            spec.data_par_burst,
            seq_at_index(q, spec.data_par_burst),
        ))
    &&& forall|k: int|
        0 <= k < stripes ==> stripe_repairable(#[trigger] stripe_shards(c, rspec, k), rspec)
}

/// A shard of a stripe that is yet to be mended is found as the container
/// was found.
pub proof fn lemma_shard_kept(
    c: Seq<u8>,
    c0: Seq<u8>,
    spec: ContainerSpec,
    rspec: RepairSpec,
    k: int,
    i: int,
)
    requires
        spec_valid(spec),
        parity_shaped(spec),
        is_container_of(c0, spec),
        repair_matches(rspec, spec),
        codec_restores(
            rspec.data_shards as nat,
            rspec.parity_shards as nat,
            data_size(spec.version) as nat,
        ),
        spoilt_within_reach(c, c0, spec, rspec),
        0 <= k < chunk_count(spec.input.len() as int, spec.version) / (rspec.data_shards as int),
        0 <= i < rspec.total_shards(),
    ensures
        stripes_repaired(c, rspec, k).len() == c.len(),
        slot_of(stripes_repaired(c, rspec, k), shard_index(rspec, k, i), rspec.version)
            == slot_of(c, shard_index(rspec, k, i), rspec.version),
        slot_of(c, shard_index(rspec, k, i), rspec.version) == slot_of(
            c0,
            shard_index(rspec, k, i),
            rspec.version,
        ) || !data_block_ok(
            c,
            rspec.version,
            rspec.uid,
            rspec.data_par_burst(),
            shard_seq_num(rspec, k, i),
        ),
    decreases k, 1int,
{
    let t = rspec.total_shards();
    let chunks = chunk_count(spec.input.len() as int, spec.version);
    lemma_stripe_of_container(c0, spec, rspec, k, i);
    let q = shard_index(rspec, k, i);
    let seq_num = shard_seq_num(rspec, k, i);
    assert(k * t == t * k) by (nonlinear_arith);
    lemma_fundamental_div_mod_converse(seq_num - 1, t, k, i);
    lemma_max_index(seq_num, last_seq_num(chunks, spec.data_par_burst), spec.data_par_burst);
    lemma_stripes_repaired_at(c, c0, spec, rspec, k, q);
    assert(slot_of(c, q, spec.version) == slot_of(c0, q, spec.version) || !data_block_ok(
        c,
        spec.version,
        spec.uid,
        spec.data_par_burst,
        seq_at_index(q, spec.data_par_burst),
    ));
}

/// A stripe that is yet to be mended is found as the container was found.
pub proof fn lemma_stripe_kept(c: Seq<u8>, c0: Seq<u8>, spec: ContainerSpec, rspec: RepairSpec, k: int)
    requires
        spec_valid(spec),
        parity_shaped(spec),
        is_container_of(c0, spec),
        repair_matches(rspec, spec),
        codec_restores(
            rspec.data_shards as nat,
            rspec.parity_shards as nat,
            data_size(spec.version) as nat,
        ),
        spoilt_within_reach(c, c0, spec, rspec),
        0 <= k < chunk_count(spec.input.len() as int, spec.version) / (rspec.data_shards as int),
    ensures
        stripe_mendable(stripes_repaired(c, rspec, k), c0, rspec, k),
        stripe_shards(stripes_repaired(c, rspec, k), rspec, k) == stripe_shards(c, rspec, k),
    decreases k, 2int,
{
    let x = stripes_repaired(c, rspec, k);
    let t = rspec.total_shards();
    lemma_shard_kept(c, c0, spec, rspec, k, 0);
    assert forall|i: int| 0 <= i < t implies data_block_ok(
        x,
        rspec.version,
        rspec.uid,
        rspec.data_par_burst(),
        #[trigger] shard_seq_num(rspec, k, i),
    ) == data_block_ok(
        c,
        rspec.version,
        rspec.uid,
        rspec.data_par_burst(),
        shard_seq_num(rspec, k, i),
    ) && slot_of(x, shard_index(rspec, k, i), rspec.version) == slot_of(
        c,
        shard_index(rspec, k, i),
        rspec.version,
    ) && (slot_of(c, shard_index(rspec, k, i), rspec.version) == slot_of(
        c0,
        shard_index(rspec, k, i),
        rspec.version,
    ) || !data_block_ok(
        c,
        rspec.version,
        rspec.uid,
        rspec.data_par_burst(),
        shard_seq_num(rspec, k, i),
    )) by {
        lemma_shard_kept(c, c0, spec, rspec, k, i);
    }
    assert(stripe_shards(x, rspec, k) =~= stripe_shards(c, rspec, k));
    assert(stripe_repairable(stripe_shards(c, rspec, k), rspec));
    assert forall|i: int| 0 <= i < t implies slot_of(
        x,
        #[trigger] shard_index(rspec, k, i),
        rspec.version,
    ) == slot_of(c0, shard_index(rspec, k, i), rspec.version) || !data_block_ok(
        x,
        rspec.version,
        rspec.uid,
        rspec.data_par_burst(),
        shard_seq_num(rspec, k, i),
    ) by {
        assert(shard_seq_num(rspec, k, i) == shard_seq_num(rspec, k, i));
    }
}

/// The same as `lemma_stripes_repaired`, for use where the stripes before
/// `k` are known to be mendable.
pub proof fn lemma_stripes_repaired_at(
    c: Seq<u8>,
    c0: Seq<u8>,
    spec: ContainerSpec,
    rspec: RepairSpec,
    k: int,
    q: int,
)
    requires
        spec_valid(spec),
        parity_shaped(spec),
        is_container_of(c0, spec),
        repair_matches(rspec, spec),
        codec_restores(
            rspec.data_shards as nat,
            rspec.parity_shards as nat,
            data_size(spec.version) as nat,
        ),
        spoilt_within_reach(c, c0, spec, rspec),
        0 <= k < chunk_count(spec.input.len() as int, spec.version) / (rspec.data_shards as int),
        0 <= q < slot_count(chunk_count(spec.input.len() as int, spec.version), spec.data_par_burst),
    ensures
        stripes_repaired(c, rspec, k).len() == c.len(),
        slot_of(stripes_repaired(c, rspec, k), q, spec.version) == (if seq_at_index(
            q,
            spec.data_par_burst,
        ) >= 1 && (seq_at_index(q, spec.data_par_burst) - 1) / rspec.total_shards() < k {
            slot_of(c0, q, spec.version)
        } else {
            slot_of(c, q, spec.version)
        }),
    decreases k, 0int,
{
    let size = block_size(spec.version);
    let chunks = chunk_count(spec.input.len() as int, spec.version);
    let count = slot_count(chunks, spec.data_par_burst);
    assert((q + 1) * size <= count * size) by (nonlinear_arith)
        requires
            q + 1 <= count,
            size >= 0,
    ;
    if k > 0 {
        lemma_stripes_repaired_at(c, c0, spec, rspec, k - 1, q);
        let x = stripes_repaired(c, rspec, k - 1);
        lemma_stripe_kept(c, c0, spec, rspec, k - 1);
        lemma_stripe_repaired(x, c0, spec, rspec, k - 1, q);
    }
}

/// The positions of the metadata blocks lie on slots of the container that
/// hold no shard.
pub proof fn lemma_meta_position(spec: ContainerSpec, j: int)
    requires
        spec_valid(spec),
        spec.data_par_burst is Some,
        0 <= j < meta_all_write_pos_s(spec.version, spec.data_par_burst).len(),
    ensures
        ({
            let pos = meta_all_write_pos_s(spec.version, spec.data_par_burst)[j] as int;
            let index = pos / block_size(spec.version);
            &&& pos == index * block_size(spec.version)
            &&& 0 <= index <= last_meta_index(spec.data_par_burst)
            &&& seq_at_index(index, spec.data_par_burst) == 0
        }),
{
    let (m, n, b) = spec.data_par_burst->0;
    let size = block_size(spec.version);
    let positions = meta_all_write_pos_s(spec.version, spec.data_par_burst);
    let i = if j < n {
        j + 1
    } else {
        0
    };
    let index = rs_meta_index(i, b as int);
    assert(0 <= index <= n * (1 + b) && index * size <= 256 * (1 + crate::container::MAX_BURST)
        * 4096 && index * size >= 0 && size * index == index * size) by (nonlinear_arith)
        requires
            index == i * (1 + b),
            0 <= i <= n,
            n <= 256,
            0 <= b <= crate::container::MAX_BURST,
            0 <= size <= 4096,
    ;
    assert(positions[j] == index * size);
    lemma_fundamental_div_mod_converse(index * size, size, index, 0);
    lemma_meta_index_holds_no_data(i, 1, m as int, n as int, b as int);
}

/// Where every metadata block is as it was made, none of them is replaced.
pub proof fn lemma_meta_kept(
    c: Seq<u8>,
    c0: Seq<u8>,
    spec: ContainerSpec,
    rspec: RepairSpec,
    ref_bytes: Seq<u8>,
    i: int,
)
    requires
        spec_valid(spec),
        is_container_of(c0, spec),
        repair_matches(rspec, spec),
        spoilt_within_reach(c, c0, spec, rspec),
        0 <= i <= meta_all_write_pos_s(spec.version, spec.data_par_burst).len(),
    ensures
        meta_repaired(
            c,
            rspec,
            meta_all_write_pos_s(spec.version, spec.data_par_burst),
            ref_bytes,
            i,
        ) == c,
    decreases i,
{
    if i > 0 {
        lemma_meta_kept(c, c0, spec, rspec, ref_bytes, i - 1);
        lemma_meta_position(spec, i - 1);
        let positions = meta_all_write_pos_s(spec.version, spec.data_par_burst);
        let pos = positions[i - 1] as int;
        let size = block_size(spec.version);
        let index = pos / size;
        let chunks = chunk_count(spec.input.len() as int, spec.version);
        let last = last_seq_num(chunks, spec.data_par_burst);
        lemma_max_index_meta(last, spec.data_par_burst);
        let count = slot_count(chunks, spec.data_par_burst);
        assert((index + 1) * size <= count * size && (index + 1) * size == index * size + size)
            by (nonlinear_arith)
            requires
                0 <= index < count,
                size >= 0,
        ;
        assert(slot_of(c, index, spec.version) == slot_of(c0, index, spec.version));
        assert(slot_of(c0, index, spec.version) == slot_bytes(spec, index));
        let b = BlockView {
            header: plain_header(spec.version, spec.uid, 0),
            data: DataView::Meta(spec.records),
        };
        lemma_block_round_trip(
            b,
            crate::buffer::repeated(0, data_size(spec.version) as nat),
            Seq::<u8>::empty(),
        );
        assert(meta_block_bytes(spec.version, spec.uid, spec.records) + Seq::<u8>::empty()
            =~= meta_block_bytes(spec.version, spec.uid, spec.records));
        assert(c.subrange(pos, pos + size) == slot_of(c, index, spec.version));
        assert(meta_slot_ok(c, rspec, pos));
    }
}

/// A container has as many complete stripes as its chunks fill.
pub proof fn lemma_complete_stripes(chunks: int, m: int, n: int)
    requires
        chunks >= 0,
        m >= 1,
        n >= 0,
    ensures
        ((chunks / m) * (m + n) + chunks % m) / (m + n) == chunks / m,
        chunks / m >= 0,
{
    let t = m + n;
    let full = chunks / m;
    let tail = chunks % m;
    lemma_fundamental_div_mod(chunks, m);
    assert(0 <= tail < m) by (nonlinear_arith)
        requires
            tail == chunks % m,
            m >= 1,
    ;
    assert(full >= 0 && full * t == t * full) by (nonlinear_arith)
        requires
            chunks == m * full + tail,
            0 <= tail < m,
            chunks >= 0,
            m >= 1,
    ;
    lemma_fundamental_div_mod_converse(full * t + tail, t, full, tail);
}

/// Repair closure: a container of which shards were spoilt, in no stripe
/// more than it has parity shards, is after the repair the container as it
/// was made, and decodes to the file that it was made from.
///
/// This holds of a codec that restores a stripe of which enough shards are
/// left, and for a container whose parity shards have the length of a
/// payload: both are taken for granted of the codec that the library uses.
pub proof fn lemma_repair_closure(
    c: Seq<u8>,
    c0: Seq<u8>,
    spec: ContainerSpec,
    ref_block: BlockView,
)
    requires
        spec_valid(spec),
        parity_shaped(spec),
        is_container_of(c0, spec),
        spec.data_par_burst is Some,
        ref_block.header.version == spec.version,
        ref_block.header.uid == spec.uid,
        codec_restores(
            (spec.data_par_burst->0).0 as nat,
            (spec.data_par_burst->0).1 as nat,
            data_size(spec.version) as nat,
        ),
        spoilt_within_reach(c, c0, spec, repair_spec(ref_block, spec.data_par_burst->0, false)),
    ensures
        repaired(
            c,
            ref_block,
            spec.data_par_burst->0,
            total_block_count(spec.version, spec.data_par_burst, spec.input.len() as int) as u64,
            false,
        ) == c0,
        decode_result(
            repaired(
                c,
                ref_block,
                spec.data_par_burst->0,
                total_block_count(spec.version, spec.data_par_burst, spec.input.len() as int)
                    as u64,
                false,
            ),
            spec.version,
            spec.uid,
            spec.data_par_burst,
            spec.input.len() as int,
        ) == Ok::<Seq<u8>, ErrorKind>(spec.input),
{
    let dpb = spec.data_par_burst->0;
    let (m, n, b) = dpb;
    let rspec = repair_spec(ref_block, dpb, false);
    let t = rspec.total_shards();
    let size = block_size(spec.version);
    let len = spec.input.len() as int;
    let chunks = chunk_count(len, spec.version);
    let last = last_seq_num(chunks, spec.data_par_burst);
    let full = chunks / (m as int);
    let count = slot_count(chunks, spec.data_par_burst);
    let total = total_block_count(spec.version, spec.data_par_burst, len);
    let positions = meta_all_write_pos_s(spec.version, spec.data_par_burst);
    let ref_bytes = ref_block_bytes(ref_block);
    let ds = data_size(spec.version);
    lemma_fundamental_div_mod(len + ds - 1, ds);
    assert(0 <= (len + ds - 1) % ds < ds) by (nonlinear_arith)
        requires
            ds >= 1,
    ;
    assert(chunks >= 0) by (nonlinear_arith)
        requires
            len + ds - 1 == ds * chunks + (len + ds - 1) % ds,
            (len + ds - 1) % ds < ds,
            len >= 0,
            ds >= 1,
    ;
    lemma_complete_stripes(chunks, m as int, n as int);
    let tail = chunks % (m as int);
    assert(0 <= tail) by (nonlinear_arith)
        requires
            tail == chunks % (m as int),
            m >= 1,
    ;
    assert(last >= 0) by (nonlinear_arith)
        requires
            last == full * (m + n) + tail,
            full >= 0,
            tail >= 0,
            m + n >= 0,
    ;
    assert(blocks_to_repair(total as u64, n) == last);
    lemma_meta_kept(c, c0, spec, rspec, ref_bytes, positions.len() as int);
    let result = repaired(c, ref_block, dpb, total as u64, false);
    assert(result == stripes_repaired(c, rspec, full));
    lemma_max_index_meta(last, spec.data_par_burst);
    assert(count >= 1) by {
        assert(n * (1 + b) >= 0) by (nonlinear_arith)
            requires
                n >= 0,
                b >= 0,
        ;
    }
    assert forall|q: int| 0 <= q < count implies #[trigger] slot_of(result, q, spec.version)
        == slot_of(c0, q, spec.version) && result.len() == c.len() by {
        assert((q + 1) * size <= count * size) by (nonlinear_arith)
            requires
                q + 1 <= count,
                size >= 0,
        ;
        if full > 0 {
            lemma_stripes_repaired_at(c, c0, spec, rspec, full - 1, q);
            lemma_stripe_kept(c, c0, spec, rspec, full - 1);
            lemma_stripe_repaired(
                stripes_repaired(c, rspec, full - 1),
                c0,
                spec,
                rspec,
                full - 1,
                q,
            );
        }
        assert(slot_of(c, q, spec.version) == slot_of(c0, q, spec.version) || (seq_at_index(
            q,
            spec.data_par_burst,
        ) >= 1 && (seq_at_index(q, spec.data_par_burst) - 1) / t < full));
    }
    assert(slot_of(result, 0, spec.version) == slot_of(c0, 0, spec.version));
    lemma_slots_equal(result, c0, spec.version, count);
    crate::container_laws::lemma_encode_decode(c0, spec);
}

} // verus!
