//! Reed-Solomon erasure coding of the payloads of a stripe. The arithmetic is
//! that of the `reed-solomon-erasure` crate over GF(2^8); this file states
//! what the library takes for granted about it.

use vstd::prelude::*;
use reed_solomon_erasure::galois_8::ReedSolomon;

verus! {

/// Largest number of shards, data and parity together, that one stripe can have.
pub const RS_MAX_TOTAL_SHARDS: usize = 256;

/// An encoder and decoder for stripes of a fixed number of data and parity
/// shards: a `reed_solomon_erasure::galois_8::ReedSolomon`, held as it is.
#[verifier::external_body]
pub struct RSCodec {
    codec: ReedSolomon,
}

/// The numbers of data shards and of parity shards that a codec was made for.
pub uninterp spec fn rs_shard_counts(codec: RSCodec) -> (nat, nat);

/// Number of data shards that a codec was made for.
pub open spec fn rs_data_shards(codec: RSCodec) -> nat {
    rs_shard_counts(codec).0
}

/// Number of parity shards that a codec was made for.
pub open spec fn rs_parity_shards(codec: RSCodec) -> nat {
    rs_shard_counts(codec).1
}

/// The parity shards that go with `data`: `n` shards computed from `m` data
/// shards of equal length.
pub uninterp spec fn rs_parity(m: nat, n: nat, data: Seq<Seq<u8>>) -> Seq<Seq<u8>>;

/// The shards of a stripe after reconstruction: those present as they were,
/// those missing as computed from the first `m` present.
pub uninterp spec fn rs_reconstructed(m: nat, n: nat, shards: Seq<Option<Seq<u8>>>) -> Seq<
    Seq<u8>,
>;

/// The shards of a stripe as plain values.
pub open spec fn shards_view(shards: Seq<Vec<u8>>) -> Seq<Seq<u8>> {
    Seq::new(shards.len(), |i: int| shards[i]@)
}

/// The shards of a stripe, of which some may be missing, as plain values.
pub open spec fn option_shards_view(shards: Seq<Option<Vec<u8>>>) -> Seq<Option<Seq<u8>>> {
    Seq::new(
        shards.len(),
        |i: int|
            match shards[i] {
                Some(shard) => Some(shard@),
                None => None,
            },
    )
}

/// Whether every shard has `len` bytes.
pub open spec fn shards_have_len(shards: Seq<Seq<u8>>, len: nat) -> bool {
    forall|i: int| 0 <= i < shards.len() ==> (#[trigger] shards[i]).len() == len
}

/// Whether every shard that is present has `len` bytes.
pub open spec fn present_shards_have_len(shards: Seq<Option<Seq<u8>>>, len: nat) -> bool {
    forall|i: int|
        0 <= i < shards.len() ==> ((#[trigger] shards[i]) matches Some(shard) ==> shard.len()
            == len)
}

/// Number of shards that are present.
pub open spec fn present_count(shards: Seq<Option<Seq<u8>>>) -> nat
    decreases shards.len(),
{
    if shards.len() == 0 {
        0
    } else {
        present_count(shards.drop_last()) + (if shards.last() is Some {
            1nat
        } else {
            0nat
        })
    }
}

/// A stripe in full: the data shards followed by their parity shards.
pub open spec fn rs_stripe(m: nat, n: nat, data: Seq<Seq<u8>>) -> Seq<Seq<u8>> {
    data + rs_parity(m, n, data)
}

/// Whether the shards that are present are those of `stripe`.
pub open spec fn shards_agree(shards: Seq<Option<Seq<u8>>>, stripe: Seq<Seq<u8>>) -> bool {
    &&& shards.len() == stripe.len()
    &&& forall|i: int|
        0 <= i < shards.len() ==> ((#[trigger] shards[i]) matches Some(shard) ==> shard
            == stripe[i])
}

/// `ReedSolomon::new`: a codec is made exactly when there is at least one
/// data shard, at least one parity shard and no more than 256 shards in all;
/// it keeps the two counts it was made with.
#[verifier::external_body]
pub(crate) fn rs_codec_new(data_shards: usize, parity_shards: usize) -> (r: Option<RSCodec>)
    requires
        data_shards + parity_shards <= usize::MAX,
    ensures
        (r is Some) == (1 <= data_shards && 1 <= parity_shards && data_shards + parity_shards
            <= RS_MAX_TOTAL_SHARDS),
        r matches Some(codec) ==> rs_shard_counts(codec) == (
            data_shards as nat,
            parity_shards as nat,
        ),
{
    match ReedSolomon::new(data_shards, parity_shards) {
        Ok(codec) => Some(RSCodec { codec }),
        Err(_) => None,
    }
}

/// `ReedSolomon::encode_sep`: given as many data shards and parity shards as
/// the codec was made for, all of one length that is not zero, the call
/// succeeds and overwrites the parity shards with the parity of the data.
#[verifier::external_body]
pub(crate) fn rs_codec_encode(codec: &RSCodec, data: &Vec<Vec<u8>>, parity: &mut Vec<Vec<u8>>) -> (ok: bool)
    requires
        data@.len() == rs_data_shards(*codec),
        old(parity)@.len() == rs_parity_shards(*codec),
        data@.len() > 0,
        data@[0]@.len() > 0,
        shards_have_len(shards_view(data@), data@[0]@.len()),
        shards_have_len(shards_view(old(parity)@), data@[0]@.len()),
    ensures
        ok,
        shards_view(final(parity)@) == rs_parity(
            rs_data_shards(*codec),
            rs_parity_shards(*codec),
            shards_view(data@),
        ),
        final(parity)@.len() == old(parity)@.len(),
        shards_have_len(shards_view(final(parity)@), data@[0]@.len()),
{
    codec.codec.encode_sep(data.as_slice(), parity.as_mut_slice()).is_ok()
}

/// Whether the shards that are present are of one length, which is not zero.
pub open spec fn present_shards_alike(shards: Seq<Option<Seq<u8>>>) -> bool {
    &&& forall|i: int| 0 <= i < shards.len() && (#[trigger] shards[i]) is Some ==> shards[i]->0.len() > 0
    &&& forall|i: int, j: int|
        0 <= i < shards.len() && 0 <= j < shards.len() && (#[trigger] shards[i]) is Some && (
        #[trigger] shards[j]) is Some ==> shards[i]->0.len() == shards[j]->0.len()
}

/// `ReedSolomon::reconstruct`: given one slot for each shard of a stripe, of
/// which those present have one length that is not zero, the call succeeds
/// exactly when as many shards are present as the stripe has data shards. On
/// failure nothing is touched. On success every slot is filled, all shards
/// are of one length, and the shards that were present are as they were;
/// where the shards that were present are those of a stripe that
/// `encode_sep` made, the stripe is restored in full.
#[verifier::external_body]
pub(crate) fn rs_codec_reconstruct(codec: &RSCodec, shards: &mut Vec<Option<Vec<u8>>>) -> (ok: bool)
    requires
        old(shards)@.len() == rs_data_shards(*codec) + rs_parity_shards(*codec),
        present_shards_alike(option_shards_view(old(shards)@)),
    ensures
        ok == (rs_data_shards(*codec) <= present_count(option_shards_view(old(shards)@))),
        !ok ==> option_shards_view(final(shards)@) == option_shards_view(old(shards)@),
        ok ==> {
            let m = rs_data_shards(*codec);
            let n = rs_parity_shards(*codec);
            let before = option_shards_view(old(shards)@);
            let after = option_shards_view(final(shards)@);
            &&& after.len() == before.len()
            &&& forall|i: int| 0 <= i < after.len() ==> (#[trigger] after[i]) is Some
            &&& present_shards_alike(after)
            &&& forall|i: int|
                0 <= i < after.len() ==> (#[trigger] after[i])->0 == rs_reconstructed(
                    m,
                    n,
                    before,
                )[i]
            &&& rs_reconstructed(m, n, before).len() == before.len()
            &&& shards_agree(before, rs_reconstructed(m, n, before))
            &&& forall|data: Seq<Seq<u8>>|
                data.len() == m && shards_have_len(data, after[0]->0.len()) && #[trigger] shards_agree(
                    before,
                    rs_stripe(m, n, data),
                ) ==> rs_reconstructed(m, n, before) == rs_stripe(m, n, data)
        },
{
    codec.codec.reconstruct(shards.as_mut_slice()).is_ok()
}

} // verus!
