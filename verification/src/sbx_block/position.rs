//! Where blocks lie in a container: the mapping between a sequence number and
//! an index in the file, and its inverse.
//!
//! With Reed-Solomon and a burst resistance `b >= 1`, the data and parity
//! shards are tiled by super sets of `(m + n) * b` shards. Written in sequence
//! order a super set is `b` rows of `m + n` shards; on disk it is stored column
//! by column, so that the `m + n` shards of one row lie `b` blocks apart. The
//! metadata block and its `n` copies stand in front of the first `n + 1`
//! columns of the first super set.

use vstd::prelude::*;
use vstd::arithmetic::div_mod::lemma_fundamental_div_mod;
use vstd::arithmetic::div_mod::lemma_fundamental_div_mod_converse;
use crate::sbx_specs::Version;
use crate::sbx_specs::SBX_FIRST_DATA_SEQ_NUM;
use crate::sbx_specs::block_size;
use crate::sbx_specs::ver_to_block_size;
use crate::sbx_block::position_list::positions;
use crate::sbx_block::position_list::position_list_with_capacity;
use crate::sbx_block::position_list::position_list_push;
use crate::sbx_block::position_list::position_list_len;
use crate::sbx_block::position_list::position_list_get;
use crate::sbx_block::position_list::position_list_set;
use crate::sbx_block::position_list::PositionList;

verus! {

/// Whether a sequence number names a parity shard: data blocks are counted
/// from zero in sets of `m + n`, of which the last `n` are parity.
pub open spec fn is_parity_seq_num(seq_num: int, m: int, n: int) -> bool {
    seq_num != 0 && m <= (seq_num - 1) % (m + n)
}

/// Index in the file of the `i`-th copy of the metadata block (`i == 0` is the
/// metadata block itself).
pub open spec fn rs_meta_index(i: int, b: int) -> int {
    i * (1 + b)
}

/// Index in the file of the data or parity block `seq_num`.
///
/// With a burst resistance level `b >= 1`, the block is shard `col` of the
/// stripe numbered `q`, counted from zero; stripe `q` is row `q % b` of super
/// set `q / b`. In front of it lie the metadata blocks, the super sets
/// before its own, and in its own super set the columns before its own.
pub open spec fn rs_data_write_index(seq_num: int, m: int, n: int, b: int) -> int {
    if b == 0 {
        n + seq_num
    } else {
        let t = m + n;
        let q = (seq_num - 1) / t;
        let col = (seq_num - 1) % t;
        let s = q / b;
        let row = q % b;
        let meta_count = if s == 0 && col < n {
            1 + col
        } else {
            1 + n
        };
        meta_count + s * t * b + col * b + row
    }
}

/// Sequence number of the block at `index`; 0 where a metadata block lies.
///
/// With a burst resistance level `b >= 1`, the metadata block and its copies
/// lie `1 + b` apart from index 0. Of the other indices, with the metadata
/// blocks in front left out of the count, index `p * b + row` holds the shard
/// in row `row` of column `p`, counted through all super sets.
pub open spec fn rs_seq_num_at_index(index: int, m: int, n: int, b: int) -> int {
    if b == 0 {
        if index < 1 + n {
            0
        } else {
            index - n
        }
    } else if index < (1 + n) * (1 + b) && index % (1 + b) == 0 {
        0
    } else {
        let meta_count = if index < (1 + n) * (1 + b) {
            1 + index / (1 + b)
        } else {
            1 + n
        };
        let t = m + n;
        let rest = index - meta_count;
        let p = rest / b;
        let row = rest % b;
        let s = p / t;
        let col = p % t;
        (s * b + row) * t + col + 1
    }
}

/// Index in the file of the data or parity block `seq_num`, counted by
/// super sets: the index within the super set is found first, then turned.
spec fn write_index_by_sets(seq_num: int, m: int, n: int, b: int) -> int {
    if b == 0 {
        n + seq_num
    } else {
        let t = m + n;
        let super_size = t * b;
        let d = seq_num - 1;
        let s = d / super_size;
        let r = d % super_size;
        let row = r / t;
        let col = r % t;
        let meta_count = if s == 0 && col < n {
            1 + col
        } else {
            1 + n
        };
        meta_count + super_size * s + col * b + row
    }
}

/// Sequence number of the block at `index`, counted by super sets.
spec fn seq_num_by_sets(index: int, m: int, n: int, b: int) -> int {
    if b == 0 {
        if index < 1 + n {
            0
        } else {
            index - n
        }
    } else if index < (1 + n) * (1 + b) && index % (1 + b) == 0 {
        0
    } else {
        let meta_count = if index < (1 + n) * (1 + b) {
            1 + index / (1 + b)
        } else {
            1 + n
        };
        let t = m + n;
        let super_size = t * b;
        let rest = index - meta_count;
        let s = rest / super_size;
        let r = rest % super_size;
        let col = r / b;
        let row = r % b;
        super_size * s + row * t + col + 1
    }
}

/// Byte offset of the data or parity block `seq_num` in a container; without
/// Reed-Solomon parameters the blocks lie in sequence order.
pub open spec fn data_write_pos(
    version: Version,
    seq_num: int,
    data_par_burst: Option<(usize, usize, usize)>,
) -> int {
    match data_par_burst {
        None => seq_num * block_size(version),
        Some((m, n, b)) => rs_data_write_index(seq_num, m as int, n as int, b as int) * block_size(
            version,
        ),
    }
}

/// A row-major position in a `rows * cols` grid, turned into the column-major
/// position of the same cell, comes back when turned again.
proof fn lemma_transpose(r: int, cols: int, rows: int)
    requires
        cols > 0,
        rows > 0,
        0 <= r < cols * rows,
    ensures
        0 <= r / cols < rows,
        0 <= r % cols < cols,
        0 <= (r % cols) * rows + r / cols < cols * rows,
        ((r % cols) * rows + r / cols) / rows == r % cols,
        ((r % cols) * rows + r / cols) % rows == r / cols,
        (r / cols) * cols + r % cols == r,
{
    let row = r / cols;
    let col = r % cols;
    lemma_fundamental_div_mod(r, cols);
    assert(0 <= col < cols) by (nonlinear_arith)
        requires
            col == r % cols,
            cols > 0,
    ;
    assert(cols * row == row * cols) by (nonlinear_arith);
    assert(0 <= row < rows) by (nonlinear_arith)
        requires
            r == row * cols + col,
            0 <= col < cols,
            0 <= r < cols * rows,
            cols > 0,
            rows > 0,
    ;
    assert(0 <= col * rows + row < cols * rows) by (nonlinear_arith)
        requires
            0 <= col < cols,
            0 <= row < rows,
    ;
    lemma_fundamental_div_mod_converse(col * rows + row, rows, col, row);
}

/// A number below `size` added to a multiple of `size` splits back into the two.
proof fn lemma_split(q: int, size: int, r: int)
    requires
        size > 0,
        0 <= r < size,
    ensures
        (size * q + r) / size == q,
        (size * q + r) % size == r,
{
    assert(size * q == q * size) by (nonlinear_arith);
    lemma_fundamental_div_mod_converse(size * q + r, size, q, r);
}

/// Quotient and remainder of a non-negative number are in range.
proof fn lemma_div_mod_range(x: int, d: int)
    requires
        x >= 0,
        d > 0,
    ensures
        0 <= x / d,
        0 <= x % d < d,
        x == d * (x / d) + x % d,
        d * (x / d) <= x,
{
    lemma_fundamental_div_mod(x, d);
    assert(0 <= x % d < d) by (nonlinear_arith)
        requires
            d > 0,
    ;
    assert(0 <= x / d) by (nonlinear_arith)
        requires
            x >= 0,
            d > 0,
            x == d * (x / d) + x % d,
            0 <= x % d < d,
    ;
}

/// The pieces that `write_index_by_sets` is made of, and their ranges.
proof fn lemma_write_index_parts(seq_num: int, m: int, n: int, b: int)
    requires
        seq_num >= 1,
        m + n >= 1,
        m >= 0,
        n >= 0,
        b >= 1,
    ensures
        ({
            let t = m + n;
            let super_size = t * b;
            let d = seq_num - 1;
            let s = d / super_size;
            let r = d % super_size;
            let row = r / t;
            let col = r % t;
            &&& super_size >= t
            &&& super_size >= b
            &&& 0 <= s
            &&& 0 <= super_size * s <= d
            &&& d == super_size * s + r
            &&& 0 <= r < super_size
            &&& 0 <= row < b
            &&& 0 <= col < t
            &&& 0 <= col * b + row < super_size
            &&& (col * b + row) / b == col
            &&& (col * b + row) % b == row
            &&& row * t + col == r
            &&& 1 <= write_index_by_sets(seq_num, m, n, b) <= n + seq_num + super_size
        }),
{
    let t = m + n;
    let super_size = t * b;
    let d = seq_num - 1;
    assert(super_size >= t && super_size >= b && super_size > 0) by (nonlinear_arith)
        requires
            super_size == t * b,
            t >= 1,
            b >= 1,
    ;
    lemma_div_mod_range(d, super_size);
    lemma_transpose(d % super_size, t, b);
    assert(super_size * (d / super_size) >= 0) by (nonlinear_arith)
        requires
            super_size > 0,
            d / super_size >= 0,
    ;
}

/// The slot of a data block is not far above its sequence number.
proof fn lemma_write_index_bound_by_sets(seq_num: int, m: int, n: int, b: int)
    requires
        seq_num >= 1,
        m + n >= 1,
        m >= 0,
        n >= 0,
        b >= 0,
    ensures
        1 <= write_index_by_sets(seq_num, m, n, b) <= n + seq_num + (m + n) * b,
{
    if b >= 1 {
        lemma_write_index_parts(seq_num, m, n, b);
    }
}

/// A data block read back from where it was written is the same data block.
proof fn lemma_round_trip_by_sets(seq_num: int, m: int, n: int, b: int)
    requires
        seq_num >= 1,
        m >= 1,
        n >= 0,
        b >= 0,
    ensures
        write_index_by_sets(seq_num, m, n, b) >= 1,
        seq_num_by_sets(write_index_by_sets(seq_num, m, n, b), m, n, b) == seq_num,
{
    if b >= 1 {
        let t = m + n;
        let super_size = t * b;
        let d = seq_num - 1;
        let s = d / super_size;
        let r = d % super_size;
        let row = r / t;
        let col = r % t;
        let inner = col * b + row;
        let index = write_index_by_sets(seq_num, m, n, b);
        let limit = (1 + n) * (1 + b);
        lemma_write_index_parts(seq_num, m, n, b);
        assert(limit == 1 + n + (1 + n) * b) by (nonlinear_arith)
            requires
                limit == (1 + n) * (1 + b),
        ;
        if s == 0 && col <= n {
            assert(super_size * s == 0) by (nonlinear_arith)
                requires
                    s == 0,
            ;
            assert(index == (1 + b) * col + (1 + row)) by (nonlinear_arith)
                requires
                    index == 1 + col + super_size * s + col * b + row,
                    super_size * s == 0,
            ;
            lemma_split(col, 1 + b, 1 + row);
            assert(index < limit) by (nonlinear_arith)
                requires
                    index == (1 + b) * col + (1 + row),
                    col <= n,
                    0 <= row < b,
                    limit == (1 + n) * (1 + b),
            ;
            let rest = index - (1 + col);
            assert(rest == super_size * 0 + inner) by (nonlinear_arith)
                requires
                    rest == index - (1 + col),
                    index == (1 + b) * col + (1 + row),
                    inner == col * b + row,
            ;
            lemma_split(0, super_size, inner);
            assert(super_size * (rest / super_size) == 0) by (nonlinear_arith)
                requires
                    rest / super_size == 0,
            ;
        } else {
            assert(index >= limit) by (nonlinear_arith)
                requires
                    index == 1 + n + super_size * s + col * b + row,
                    limit == 1 + n + (1 + n) * b,
                    super_size == t * b,
                    t >= 1 + n,
                    s >= 0,
                    s == 0 ==> col >= n + 1,
                    0 <= col < t,
                    0 <= row < b,
                    b >= 1,
                    n >= 0,
            ;
            let rest = index - (1 + n);
            assert(rest == super_size * s + inner);
            lemma_split(s, super_size, inner);
        }
    }
}

/// A file index that holds no metadata block holds the data block whose
/// sequence number is read from it.
proof fn lemma_index_round_trip_by_sets(index: int, m: int, n: int, b: int)
    requires
        index >= 0,
        m >= 1,
        n >= 0,
        b >= 0,
        seq_num_by_sets(index, m, n, b) != 0,
    ensures
        seq_num_by_sets(index, m, n, b) >= 1,
        write_index_by_sets(seq_num_by_sets(index, m, n, b), m, n, b) == index,
{
    if b >= 1 {
        let t = m + n;
        let super_size = t * b;
        let limit = (1 + n) * (1 + b);
        let seq_num = seq_num_by_sets(index, m, n, b);
        assert(super_size >= t && super_size >= b && super_size > 0) by (nonlinear_arith)
            requires
                super_size == t * b,
                t >= 1,
                b >= 1,
        ;
        assert(limit == 1 + n + (1 + n) * b) by (nonlinear_arith)
            requires
                limit == (1 + n) * (1 + b),
        ;
        assert(super_size == b * t) by (nonlinear_arith)
            requires
                super_size == t * b,
        ;
        if index < limit {
            let k = index / (1 + b);
            let j = index % (1 + b);
            lemma_div_mod_range(index, 1 + b);
            assert(k <= n) by (nonlinear_arith)
                requires
                    index == (1 + b) * k + j,
                    0 <= j,
                    index < (1 + n) * (1 + b),
                    b >= 1,
            ;
            let rest = index - (1 + k);
            let inner = k * b + (j - 1);
            assert(rest == super_size * 0 + inner) by (nonlinear_arith)
                requires
                    rest == index - (1 + k),
                    index == (1 + b) * k + j,
                    inner == k * b + (j - 1),
            ;
            assert(0 <= inner < super_size) by (nonlinear_arith)
                requires
                    inner == k * b + (j - 1),
                    0 <= k <= n,
                    1 <= j <= b,
                    super_size == t * b,
                    t >= n + 1,
            ;
            lemma_split(0, super_size, inner);
            lemma_split(k, b, j - 1);
            assert(k * b == b * k) by (nonlinear_arith);
            assert(super_size * 0 == 0);
            let d = (j - 1) * t + k;
            assert(seq_num == d + 1);
            lemma_transpose(inner, b, t);
            assert(0 <= d < super_size);
            assert(d == super_size * 0 + d);
            lemma_split(0, super_size, d);
            assert(t * (j - 1) == (j - 1) * t) by (nonlinear_arith);
            lemma_split(j - 1, t, k);
            assert(write_index_by_sets(seq_num, m, n, b) == index);
        } else {
            let rest = index - (1 + n);
            let s = rest / super_size;
            let r = rest % super_size;
            let col = r / b;
            let row = r % b;
            lemma_div_mod_range(rest, super_size);
            lemma_transpose(r, b, t);
            let inner = row * t + col;
            let d = super_size * s + inner;
            assert(seq_num == d + 1);
            assert(super_size * s >= 0) by (nonlinear_arith)
                requires
                    super_size > 0,
                    s >= 0,
            ;
            lemma_split(s, super_size, inner);
            assert(t * row == row * t) by (nonlinear_arith);
            lemma_split(row, t, col);
            if s == 0 {
                assert(col >= n + 1) by (nonlinear_arith)
                    requires
                        rest == super_size * s + r,
                        s == 0,
                        r == col * b + row,
                        0 <= row < b,
                        rest >= (1 + n) * b,
                ;
            }
            assert(b * col == col * b) by (nonlinear_arith);
            assert(write_index_by_sets(seq_num, m, n, b) == index);
        }
    }
}

/// No data or parity block is written where a metadata block lies.
proof fn lemma_meta_index_by_sets(i: int, seq_num: int, m: int, n: int, b: int)
    requires
        0 <= i <= n,
        seq_num >= 1,
        m >= 1,
        b >= 0,
    ensures
        seq_num_by_sets(rs_meta_index(i, b), m, n, b) == 0,
        write_index_by_sets(seq_num, m, n, b) != rs_meta_index(i, b),
{
    let index = rs_meta_index(i, b);
    assert(index == (1 + b) * i + 0 && index >= 0) by (nonlinear_arith)
        requires
            index == i * (1 + b),
            i >= 0,
            b >= 0,
    ;
    if b >= 1 {
        lemma_split(i, 1 + b, 0);
        assert(index % (1 + b) == 0);
        assert(index < (1 + n) * (1 + b)) by (nonlinear_arith)
            requires
                index == i * (1 + b),
                0 <= i <= n,
                b >= 1,
        ;
    } else {
        assert(index == i) by (nonlinear_arith)
            requires
                index == i * (1 + b),
                b == 0,
        ;
    }
    assert(seq_num_by_sets(index, m, n, b) == 0);
    lemma_round_trip_by_sets(seq_num, m, n, b);
}

/// The metadata block and its copies lie at pairwise distinct indices.
pub proof fn lemma_meta_indices_distinct(i: int, j: int, b: int)
    requires
        0 <= i < j,
        b >= 0,
    ensures
        rs_meta_index(i, b) < rs_meta_index(j, b),
{
    assert(i * (1 + b) < j * (1 + b)) by (nonlinear_arith)
        requires
            0 <= i < j,
            b >= 0,
    ;
}

/// Whether the block with `seq_num` holds parity: the last `parity_shards` of
/// every `data_shards + parity_shards` blocks from the first data block on do.
pub fn seq_num_is_parity(seq_num: u32, data_shards: usize, parity_shards: usize) -> (r: bool)
    requires
        seq_num != 0 ==> 0 < data_shards + parity_shards <= u32::MAX,
    ensures
        r == is_parity_seq_num(seq_num as int, data_shards as int, parity_shards as int),
{
    if seq_num == 0 {
        false
    } else {
        let index: u32 = seq_num - SBX_FIRST_DATA_SEQ_NUM;
        let index_in_set: u32 = index % ((data_shards + parity_shards) as u32);
        data_shards as u64 <= index_in_set as u64
    }
}

/// Index of the slot that the block with `seq_num` is written to.
pub fn calc_rs_enabled_data_write_index(
    seq_num: u32,
    data_shards: usize,
    parity_shards: usize,
    burst_err_resistance: usize,
) -> (r: u64)
    requires
        seq_num >= SBX_FIRST_DATA_SEQ_NUM,
        burst_err_resistance > 0 ==> data_shards + parity_shards > 0,
        (data_shards + parity_shards) * burst_err_resistance + parity_shards + seq_num
            <= u64::MAX,
    ensures
        r == rs_data_write_index(
            seq_num as int,
            data_shards as int,
            parity_shards as int,
            burst_err_resistance as int,
        ),
{
    proof {
        lemma_write_index_same(
            seq_num as int,
            data_shards as int,
            parity_shards as int,
            burst_err_resistance as int,
        );
    }
    if burst_err_resistance == 0 {
        return parity_shards as u64 + seq_num as u64;
    }
    proof {
        lemma_write_index_parts(
            seq_num as int,
            data_shards as int,
            parity_shards as int,
            burst_err_resistance as int,
        );
    }
    let index: u64 = seq_num as u64 - SBX_FIRST_DATA_SEQ_NUM as u64;
    let data_shards: u64 = data_shards as u64;
    let parity_shards: u64 = parity_shards as u64;
    let burst_err_resistance: u64 = burst_err_resistance as u64;

    let sub_a_block_set_size: u64 = data_shards + parity_shards;
    let sub_b_block_set_size: u64 = burst_err_resistance;
    let super_block_set_size: u64 = sub_a_block_set_size * burst_err_resistance;

    let super_block_set_index: u64 = index / super_block_set_size;
    let index_in_super_block_set: u64 = index % super_block_set_size;

    let sub_a_block_set_index: u64 = index_in_super_block_set / sub_a_block_set_size;
    let index_in_sub_a_block_set: u64 = index_in_super_block_set % sub_a_block_set_size;

    let sub_b_block_set_index: u64 = index_in_sub_a_block_set;
    let index_in_sub_b_block_set: u64 = sub_a_block_set_index;

    let new_index_in_super_block_set: u64 = sub_b_block_set_index * sub_b_block_set_size
        + index_in_sub_b_block_set;

    let meta_block_count: u64 = if super_block_set_index == 0 {
        if sub_b_block_set_index < 1 + parity_shards {
            1 + sub_b_block_set_index
        } else {
            1 + parity_shards
        }
    } else {
        1 + parity_shards
    };

    meta_block_count + (super_block_set_size * super_block_set_index)
        + new_index_in_super_block_set
}

/// Byte position that the block with `seq_num` is written to.
pub fn calc_rs_enabled_data_write_pos(
    seq_num: u32,
    version: Version,
    data_shards: usize,
    parity_shards: usize,
    burst_err_resistance: usize,
) -> (r: u64)
    requires
        seq_num >= SBX_FIRST_DATA_SEQ_NUM,
        burst_err_resistance > 0 ==> data_shards + parity_shards > 0,
        ((data_shards + parity_shards) * burst_err_resistance + parity_shards + seq_num) * 4096
            <= u64::MAX,
    ensures
        r == rs_data_write_index(
            seq_num as int,
            data_shards as int,
            parity_shards as int,
            burst_err_resistance as int,
        ) * block_size(version),
        r == data_write_pos(
            version,
            seq_num as int,
            Some((data_shards, parity_shards, burst_err_resistance)),
        ),
        r % (block_size(version) as u64) == 0,
        r / (block_size(version) as u64) == rs_data_write_index(
            seq_num as int,
            data_shards as int,
            parity_shards as int,
            burst_err_resistance as int,
        ),
{
    proof {
        lemma_write_index_same(
            seq_num as int,
            data_shards as int,
            parity_shards as int,
            burst_err_resistance as int,
        );
    }
    let block_size: u64 = ver_to_block_size(version) as u64;
    let index: u64 = calc_rs_enabled_data_write_index(
        seq_num,
        data_shards,
        parity_shards,
        burst_err_resistance,
    );
    proof {
        if burst_err_resistance > 0 {
            lemma_write_index_parts(
                seq_num as int,
                data_shards as int,
                parity_shards as int,
                burst_err_resistance as int,
            );
        }
        let bound = (data_shards + parity_shards) * burst_err_resistance + parity_shards
            + seq_num;
        assert(index <= bound);
        assert(index * block_size <= bound * 4096) by (nonlinear_arith)
            requires
                0 <= index <= bound,
                0 <= block_size <= 4096,
        ;
        assert(block_size * index == index * block_size) by (nonlinear_arith);
        lemma_split(index as int, block_size as int, 0);
    }
    index * block_size
}

/// Sequence number of the block at `index`, as wide as an index.
pub fn calc_rs_enabled_seq_num_at_index_wide(
    index: u64,
    data_shards: usize,
    parity_shards: usize,
    burst_err_resistance: usize,
) -> (r: u64)
    requires
        burst_err_resistance > 0 ==> data_shards + parity_shards > 0,
        (data_shards + parity_shards) * burst_err_resistance <= u64::MAX,
        (1 + parity_shards) * (1 + burst_err_resistance) <= u64::MAX,
        rs_seq_num_at_index(
            index as int,
            data_shards as int,
            parity_shards as int,
            burst_err_resistance as int,
        ) <= u64::MAX,
    ensures
        r == rs_seq_num_at_index(
            index as int,
            data_shards as int,
            parity_shards as int,
            burst_err_resistance as int,
        ),
{
    proof {
        lemma_seq_num_same(
            index as int,
            data_shards as int,
            parity_shards as int,
            burst_err_resistance as int,
        );
    }
    proof {
        assert((1 + parity_shards) * (1 + burst_err_resistance) >= 1 + parity_shards && (1
            + parity_shards) * (1 + burst_err_resistance) >= 1 + burst_err_resistance)
            by (nonlinear_arith);
        assert(burst_err_resistance > 0 ==> (data_shards + parity_shards) * burst_err_resistance
            >= data_shards + parity_shards) by (nonlinear_arith);
    }
    if burst_err_resistance == 0 {
        if index < 1 + parity_shards as u64 {
            return 0;
        } else {
            return index - parity_shards as u64;
        }
    }
    let data_shards: u64 = data_shards as u64;
    let parity_shards: u64 = parity_shards as u64;
    let burst_err_resistance: u64 = burst_err_resistance as u64;

    let meta_region: u64 = (1 + parity_shards) * (1 + burst_err_resistance);
    if index < meta_region {
        if index % (1 + burst_err_resistance) == 0 {
            return 0;
        }
    }
    proof {
        let i = index as int;
        let w = 1 + burst_err_resistance as int;
        let n = parity_shards as int;
        lemma_div_mod_range(i, w);
        assert(i < meta_region ==> i / w <= n) by (nonlinear_arith)
            requires
                i == w * (i / w) + i % w,
                0 <= i % w,
                meta_region == (1 + n) * w,
                w >= 2,
        ;
        assert(i % w >= 1 ==> i >= 1 + i / w) by (nonlinear_arith)
            requires
                i == w * (i / w) + i % w,
                i / w >= 0,
                w >= 2,
        ;
        assert(meta_region >= 1 + n) by (nonlinear_arith)
            requires
                meta_region == (1 + n) * w,
                w >= 2,
                n >= 0,
        ;
    }
    let meta_block_count: u64 = if index < meta_region {
        1 + index / (1 + burst_err_resistance)
    } else {
        1 + parity_shards
    };

    let sub_a_block_set_size: u64 = data_shards + parity_shards;
    let sub_b_block_set_size: u64 = burst_err_resistance;
    let super_block_set_size: u64 = sub_a_block_set_size * burst_err_resistance;

    let index_without_meta: u64 = index - meta_block_count;

    proof {
        let t = sub_a_block_set_size as int;
        let b = sub_b_block_set_size as int;
        let size = super_block_set_size as int;
        let rest = index_without_meta as int;
        assert(size > 0 && size == b * t) by (nonlinear_arith)
            requires
                size == t * b,
                t >= 1,
                b >= 1,
        ;
        lemma_div_mod_range(rest, size);
        lemma_transpose(rest % size, b, t);
        assert(size * (rest / size) >= 0) by (nonlinear_arith)
            requires
                size > 0,
                rest / size >= 0,
        ;
    }

    let super_block_set_index: u64 = index_without_meta / super_block_set_size;
    let index_in_super_block_set: u64 = index_without_meta % super_block_set_size;

    let sub_b_block_set_index: u64 = index_in_super_block_set / sub_b_block_set_size;
    let index_in_sub_b_block_set: u64 = index_in_super_block_set % sub_b_block_set_size;

    let sub_a_block_set_index: u64 = index_in_sub_b_block_set;
    let index_in_sub_a_block_set: u64 = sub_b_block_set_index;

    let old_index_in_super_block_set: u64 = sub_a_block_set_index * sub_a_block_set_size
        + index_in_sub_a_block_set;

    let old_index: u64 = (super_block_set_size * super_block_set_index)
        + old_index_in_super_block_set;

    old_index + SBX_FIRST_DATA_SEQ_NUM as u64
}

/// Sequence number of the block in the slot at `index`; 0 for a slot that
/// holds a copy of the metadata block.
pub fn calc_rs_enabled_seq_num_at_index(
    index: u64,
    data_shards: usize,
    parity_shards: usize,
    burst_err_resistance: usize,
) -> (r: u32)
    requires
        burst_err_resistance > 0 ==> data_shards + parity_shards > 0,
        (data_shards + parity_shards) * burst_err_resistance <= u64::MAX,
        (1 + parity_shards) * (1 + burst_err_resistance) <= u64::MAX,
        index + (data_shards + parity_shards) * burst_err_resistance + 1 <= u32::MAX
            || rs_seq_num_at_index(
            index as int,
            data_shards as int,
            parity_shards as int,
            burst_err_resistance as int,
        ) <= u32::MAX,
    ensures
        r == rs_seq_num_at_index(
            index as int,
            data_shards as int,
            parity_shards as int,
            burst_err_resistance as int,
        ),
{
    proof {
        lemma_seq_num_same(
            index as int,
            data_shards as int,
            parity_shards as int,
            burst_err_resistance as int,
        );
    }
    proof {
        if burst_err_resistance > 0 {
            lemma_seq_num_bound_by_sets(
                index as int,
                data_shards as int,
                parity_shards as int,
                burst_err_resistance as int,
            );
        }
    }
    calc_rs_enabled_seq_num_at_index_wide(
        index,
        data_shards,
        parity_shards,
        burst_err_resistance,
    ) as u32
}

/// The sequence number read from a slot is not far above the slot's index.
proof fn lemma_seq_num_bound_by_sets(index: int, m: int, n: int, b: int)
    requires
        index >= 0,
        m + n >= 1,
        m >= 0,
        n >= 0,
        b >= 0,
    ensures
        0 <= seq_num_by_sets(index, m, n, b) <= index + (m + n) * b + 1,
{
    if b >= 1 {
        let t = m + n;
        let size = t * b;
        let limit = (1 + n) * (1 + b);
        assert(size > 0 && size == b * t) by (nonlinear_arith)
            requires
                size == t * b,
                t >= 1,
                b >= 1,
        ;
        if !(index < limit && index % (1 + b) == 0) {
            lemma_div_mod_range(index, 1 + b);
            let meta_count = if index < limit {
                1 + index / (1 + b)
            } else {
                1 + n
            };
            assert(limit >= 1 + n) by (nonlinear_arith)
                requires
                    limit == (1 + n) * (1 + b),
                    b >= 1,
                    n >= 0,
            ;
            assert(index % (1 + b) >= 1 ==> index >= 1 + index / (1 + b)) by (nonlinear_arith)
                requires
                    index == (1 + b) * (index / (1 + b)) + index % (1 + b),
                    index / (1 + b) >= 0,
                    b >= 1,
            ;
            assert(index < limit ==> index / (1 + b) <= n) by (nonlinear_arith)
                requires
                    index == (1 + b) * (index / (1 + b)) + index % (1 + b),
                    0 <= index % (1 + b),
                    limit == (1 + n) * (1 + b),
                    b >= 1,
            ;
            let rest = index - meta_count;
            lemma_div_mod_range(rest, size);
            lemma_transpose(rest % size, b, t);
        }
    }
}

/// Counting by stripes and counting by super sets give the same index.
proof fn lemma_write_index_same(seq_num: int, m: int, n: int, b: int)
    requires
        seq_num >= 1,
        m >= 0,
        n >= 0,
        b >= 1 ==> m + n >= 1,
        b >= 0,
    ensures
        rs_data_write_index(seq_num, m, n, b) == write_index_by_sets(seq_num, m, n, b),
{
    if b >= 1 {
        let t = m + n;
        let d = seq_num - 1;
        let size = t * b;
        vstd::arithmetic::div_mod::lemma_div_denominator(d, t, b);
        vstd::arithmetic::div_mod::lemma_breakdown(d, t, b);
        lemma_div_mod_range(d, t);
        lemma_div_mod_range(d / t, b);
        let r = d % size;
        let row = (d / t) % b;
        let col = d % t;
        assert(r == t * row + col);
        assert(t * row == row * t) by (nonlinear_arith);
        lemma_fundamental_div_mod_converse(r, t, row, col);
        let s = (d / t) / b;
        assert(s * t * b == size * s) by (nonlinear_arith)
            requires
                size == t * b,
        ;
    }
}

/// Counting by columns and counting by super sets give the same sequence number.
proof fn lemma_seq_num_same(index: int, m: int, n: int, b: int)
    requires
        index >= 0,
        m >= 0,
        n >= 0,
        b >= 1 ==> m + n >= 1,
        b >= 0,
    ensures
        rs_seq_num_at_index(index, m, n, b) == seq_num_by_sets(index, m, n, b),
{
    if b >= 1 {
        let limit = (1 + n) * (1 + b);
        if !(index < limit && index % (1 + b) == 0) {
            let t = m + n;
            let size = t * b;
            lemma_div_mod_range(index, 1 + b);
            let meta_count = if index < limit {
                1 + index / (1 + b)
            } else {
                1 + n
            };
            assert(limit >= 1 + n) by (nonlinear_arith)
                requires
                    limit == (1 + n) * (1 + b),
                    b >= 1,
                    n >= 0,
            ;
            assert(index % (1 + b) >= 1 ==> index >= 1 + index / (1 + b)) by (nonlinear_arith)
                requires
                    index == (1 + b) * (index / (1 + b)) + index % (1 + b),
                    index / (1 + b) >= 0,
                    b >= 1,
            ;
            let rest = index - meta_count;
            assert(size == b * t) by (nonlinear_arith)
                requires
                    size == t * b,
            ;
            vstd::arithmetic::div_mod::lemma_div_denominator(rest, b, t);
            vstd::arithmetic::div_mod::lemma_breakdown(rest, b, t);
            lemma_div_mod_range(rest, b);
            lemma_div_mod_range(rest / b, t);
            let r = rest % size;
            let col = (rest / b) % t;
            let row = rest % b;
            assert(r == b * col + row);
            assert(b * col == col * b) by (nonlinear_arith);
            lemma_fundamental_div_mod_converse(r, b, col, row);
            let s = (rest / b) / t;
            assert((s * b + row) * t == size * s + row * t) by (nonlinear_arith)
                requires
                    size == t * b,
            ;
        }
    }
}

/// The slot of a data block is not far above its sequence number.
pub proof fn lemma_write_index_bound(seq_num: int, m: int, n: int, b: int)
    requires
        seq_num >= 1,
        m + n >= 1,
        m >= 0,
        n >= 0,
        b >= 0,
    ensures
        1 <= rs_data_write_index(seq_num, m, n, b) <= n + seq_num + (m + n) * b,
{
    lemma_write_index_same(seq_num, m, n, b);
    lemma_write_index_bound_by_sets(seq_num, m, n, b);
}

/// The sequence number read from a slot is not far above the slot's index.
pub proof fn lemma_seq_num_at_index_bound(index: int, m: int, n: int, b: int)
    requires
        index >= 0,
        m + n >= 1,
        m >= 0,
        n >= 0,
        b >= 0,
    ensures
        0 <= rs_seq_num_at_index(index, m, n, b) <= index + (m + n) * b + 1,
{
    lemma_seq_num_same(index, m, n, b);
    lemma_seq_num_bound_by_sets(index, m, n, b);
}

/// A data block read back from where it was written is the same data block.
pub proof fn lemma_seq_num_round_trip(seq_num: int, m: int, n: int, b: int)
    requires
        seq_num >= 1,
        m >= 1,
        n >= 0,
        b >= 0,
    ensures
        rs_data_write_index(seq_num, m, n, b) >= 1,
        rs_seq_num_at_index(rs_data_write_index(seq_num, m, n, b), m, n, b) == seq_num,
{
    lemma_write_index_same(seq_num, m, n, b);
    lemma_round_trip_by_sets(seq_num, m, n, b);
    lemma_seq_num_same(write_index_by_sets(seq_num, m, n, b), m, n, b);
}

/// A file index that holds no metadata block holds the data block whose
/// sequence number is read from it.
pub proof fn lemma_index_round_trip(index: int, m: int, n: int, b: int)
    requires
        index >= 0,
        m >= 1,
        n >= 0,
        b >= 0,
        rs_seq_num_at_index(index, m, n, b) != 0,
    ensures
        rs_seq_num_at_index(index, m, n, b) >= 1,
        rs_data_write_index(rs_seq_num_at_index(index, m, n, b), m, n, b) == index,
{
    lemma_seq_num_same(index, m, n, b);
    lemma_index_round_trip_by_sets(index, m, n, b);
    lemma_write_index_same(seq_num_by_sets(index, m, n, b), m, n, b);
}

/// No data or parity block is written where a metadata block lies.
pub proof fn lemma_meta_index_holds_no_data(i: int, seq_num: int, m: int, n: int, b: int)
    requires
        0 <= i <= n,
        seq_num >= 1,
        m >= 1,
        b >= 0,
    ensures
        rs_seq_num_at_index(rs_meta_index(i, b), m, n, b) == 0,
        rs_data_write_index(seq_num, m, n, b) != rs_meta_index(i, b),
{
    lemma_meta_index_by_sets(i, seq_num, m, n, b);
    lemma_write_index_same(seq_num, m, n, b);
    assert(rs_meta_index(i, b) >= 0) by (nonlinear_arith)
        requires
            rs_meta_index(i, b) == i * (1 + b),
            i >= 0,
            b >= 0,
    ;
    lemma_seq_num_same(rs_meta_index(i, b), m, n, b);
}

/// Two different data blocks are written at different indices.
pub proof fn lemma_write_index_injective(a: int, c: int, m: int, n: int, b: int)
    requires
        a >= 1,
        c >= 1,
        a != c,
        m >= 1,
        n >= 0,
        b >= 0,
    ensures
        rs_data_write_index(a, m, n, b) != rs_data_write_index(c, m, n, b),
{
    lemma_seq_num_round_trip(a, m, n, b);
    lemma_seq_num_round_trip(c, m, n, b);
}

/// Indices of the copies of the metadata block, without the block itself.
pub open spec fn rs_meta_dup_write_indices(n: int, b: int) -> Seq<u64> {
    Seq::new(n as nat, |k: int| rs_meta_index(k + 1, b) as u64)
}

/// Indices of the metadata block and its copies: the copies first, then 0.
pub open spec fn rs_meta_all_write_indices(n: int, b: int) -> Seq<u64> {
    rs_meta_dup_write_indices(n, b).push(0)
}

/// Byte offsets of the copies of the metadata block.
pub open spec fn rs_meta_dup_write_pos_s(version: Version, n: int, b: int) -> Seq<u64> {
    Seq::new(n as nat, |k: int| (rs_meta_index(k + 1, b) * block_size(version)) as u64)
}

/// Byte offsets of the metadata block and its copies: the copies first, then 0.
pub open spec fn rs_meta_all_write_pos_s(version: Version, n: int, b: int) -> Seq<u64> {
    rs_meta_dup_write_pos_s(version, n, b).push(0)
}

/// Byte offsets of every metadata block of a container; without Reed-Solomon
/// parameters there is the one at the start.
pub open spec fn meta_all_write_pos_s(
    version: Version,
    data_par_burst: Option<(usize, usize, usize)>,
) -> Seq<u64> {
    match data_par_burst {
        None => seq![0u64],
        Some((m, n, b)) => rs_meta_all_write_pos_s(version, n as int, b as int),
    }
}

/// The metadata block and its copies take `1 + n` pairwise distinct offsets,
/// and no data or parity block is written at any of them.
pub proof fn lemma_meta_positions_apart(version: Version, seq_num: int, m: int, n: int, b: int)
    requires
        seq_num >= 1,
        m >= 1,
        n >= 0,
        b >= 0,
        n * (1 + b) * block_size(version) <= u64::MAX,
    ensures
        rs_meta_all_write_pos_s(version, n, b).len() == 1 + n,
        rs_meta_all_write_pos_s(version, n, b).no_duplicates(),
        forall|k: int|
            0 <= k <= n ==> #[trigger] rs_meta_all_write_pos_s(version, n, b)[k] != data_write_pos(
                version,
                seq_num,
                Some((m as usize, n as usize, b as usize)),
            ) || m > usize::MAX || n > usize::MAX || b > usize::MAX,
{
    let all = rs_meta_all_write_pos_s(version, n, b);
    let size = block_size(version);
    assert forall|k: int| 0 <= k < n implies #[trigger] all[k] == rs_meta_index(k + 1, b) * size
        && all[k] > 0 by {
        assert(0 < rs_meta_index(k + 1, b) * size <= n * (1 + b) * size) by (nonlinear_arith)
            requires
                0 <= k < n,
                b >= 0,
                size >= 128,
                rs_meta_index(k + 1, b) == (k + 1) * (1 + b),
        ;
    }
    assert(all[n] == 0);
    assert forall|i: int, j: int| 0 <= i < j < all.len() implies all[i] != all[j] by {
        if j < n {
            lemma_meta_indices_distinct(i + 1, j + 1, b);
            assert(rs_meta_index(i + 1, b) * size < rs_meta_index(j + 1, b) * size)
                by (nonlinear_arith)
                requires
                    rs_meta_index(i + 1, b) < rs_meta_index(j + 1, b),
                    size >= 128,
            ;
        }
    }
    if m <= usize::MAX && n <= usize::MAX && b <= usize::MAX {
        let pos = data_write_pos(version, seq_num, Some((m as usize, n as usize, b as usize)));
        let index = rs_data_write_index(seq_num, m, n, b);
        assert(pos == index * size);
        assert forall|k: int| 0 <= k <= n implies #[trigger] all[k] != pos by {
            let i = if k < n {
                k + 1
            } else {
                0
            };
            lemma_meta_index_holds_no_data(i, seq_num, m, n, b);
            assert(rs_meta_index(0, b) == 0) by (nonlinear_arith)
                requires
                    rs_meta_index(0, b) == 0 * (1 + b),
            ;
            assert(all[k] == rs_meta_index(i, b) * size);
            assert(rs_meta_index(i, b) * size != index * size) by (nonlinear_arith)
                requires
                    rs_meta_index(i, b) != index,
                    size >= 128,
            ;
        }
    }
}

/// Indices of the slots that hold the copies of the metadata block, the
/// first slot left out.
pub fn calc_rs_enabled_meta_dup_write_indices(
    parity_shards: usize,
    burst_err_resistance: usize,
) -> (res: PositionList)
    requires
        (1 + parity_shards) * 16 <= isize::MAX,
        parity_shards * (1 + burst_err_resistance) <= u64::MAX,
    ensures
        positions(res) == rs_meta_dup_write_indices(
            parity_shards as int,
            burst_err_resistance as int,
        ),
{
    let mut res: PositionList = position_list_with_capacity(1 + parity_shards);
    let n: u64 = parity_shards as u64;
    let b: u64 = burst_err_resistance as u64;
    let mut i: u64 = 1;
    while i < 1 + n
        invariant
            1 <= i <= 1 + n,
            n == parity_shards,
            b == burst_err_resistance,
            (1 + n) * 16 <= isize::MAX,
            n * (1 + b) <= u64::MAX,
            positions(res) == rs_meta_dup_write_indices(i - 1, b as int),
        decreases 1 + n - i,
    {
        proof {
            assert(i * (1 + b) <= n * (1 + b)) by (nonlinear_arith)
                requires
                    1 <= i <= n,
                    b >= 0,
            ;
            assert(1 + b <= i * (1 + b)) by (nonlinear_arith)
                requires
                    1 <= i,
                    b >= 0,
            ;
        }
        position_list_push(&mut res, i * (1 + b));
        assert(positions(res) =~= rs_meta_dup_write_indices(i as int, b as int));
        i += 1;
    }
    res
}

/// Indices of all slots that hold the metadata block: those of the copies,
/// then the first slot.
pub fn calc_rs_enabled_meta_all_write_indices(
    parity_shards: usize,
    burst_err_resistance: usize,
) -> (res: PositionList)
    requires
        (1 + parity_shards) * 16 <= isize::MAX,
        parity_shards * (1 + burst_err_resistance) <= u64::MAX,
    ensures
        positions(res) == rs_meta_all_write_indices(
            parity_shards as int,
            burst_err_resistance as int,
        ),
{
    let mut res: PositionList = calc_rs_enabled_meta_dup_write_indices(
        parity_shards,
        burst_err_resistance,
    );
    position_list_push(&mut res, 0);
    res
}

/// Byte positions of the copies of the metadata block, the first left out.
pub fn calc_rs_enabled_meta_dup_write_pos_s(
    version: Version,
    parity_shards: usize,
    burst_err_resistance: usize,
) -> (res: PositionList)
    requires
        (1 + parity_shards) * 16 <= isize::MAX,
        parity_shards * (1 + burst_err_resistance) * 4096 <= u64::MAX,
    ensures
        positions(res) == rs_meta_dup_write_pos_s(
            version,
            parity_shards as int,
            burst_err_resistance as int,
        ),
{
    let block_size: u64 = ver_to_block_size(version) as u64;
    proof {
        assert(parity_shards * (1 + burst_err_resistance) <= parity_shards * (1
            + burst_err_resistance) * 4096) by (nonlinear_arith);
    }
    let mut res: PositionList = calc_rs_enabled_meta_dup_write_indices(
        parity_shards,
        burst_err_resistance,
    );
    let n: usize = position_list_len(&res);
    let mut i: usize = 0;
    while i < n
        invariant
            i <= n,
            n == parity_shards,
            block_size == crate::sbx_specs::block_size(version),
            parity_shards * (1 + burst_err_resistance) * 4096 <= u64::MAX,
            positions(res).len() == n,
            forall|k: int|
                0 <= k < i ==> #[trigger] positions(res)[k] == rs_meta_dup_write_pos_s(
                    version,
                    parity_shards as int,
                    burst_err_resistance as int,
                )[k],
            forall|k: int|
                i <= k < n ==> #[trigger] positions(res)[k] == rs_meta_dup_write_indices(
                    parity_shards as int,
                    burst_err_resistance as int,
                )[k],
        decreases n - i,
    {
        let index: u64 = position_list_get(&res, i);
        proof {
            let idx = rs_meta_index(i + 1, burst_err_resistance as int);
            assert(0 <= idx <= parity_shards * (1 + burst_err_resistance)) by (nonlinear_arith)
                requires
                    idx == (i + 1) * (1 + burst_err_resistance),
                    0 <= i < parity_shards,
            ;
            assert(idx * block_size <= parity_shards * (1 + burst_err_resistance) * 4096)
                by (nonlinear_arith)
                requires
                    0 <= idx <= parity_shards * (1 + burst_err_resistance),
                    0 <= block_size <= 4096,
            ;
            assert(index == idx);
        }
        position_list_set(&mut res, i, index * block_size);
        i += 1;
    }
    assert(positions(res) =~= rs_meta_dup_write_pos_s(
        version,
        parity_shards as int,
        burst_err_resistance as int,
    ));
    res
}

/// Byte positions of the metadata block and its copies: the copies first,
/// then position 0.
pub fn calc_rs_enabled_meta_dup_write_all_s(
    version: Version,
    parity_shards: usize,
    burst_err_resistance: usize,
) -> (res: PositionList)
    requires
        (1 + parity_shards) * 16 <= isize::MAX,
        parity_shards * (1 + burst_err_resistance) * 4096 <= u64::MAX,
    ensures
        positions(res) == rs_meta_all_write_pos_s(
            version,
            parity_shards as int,
            burst_err_resistance as int,
        ),
{
    let mut res: PositionList = calc_rs_enabled_meta_dup_write_pos_s(
        version,
        parity_shards,
        burst_err_resistance,
    );
    position_list_push(&mut res, 0);
    res
}

/// Byte offsets of every metadata block of a container.
pub fn calc_meta_block_all_write_pos_s(
    version: Version,
    data_par_burst: Option<(usize, usize, usize)>,
) -> (res: PositionList)
    requires
        data_par_burst matches Some((m, n, b)) ==> (1 + n) * 16 <= isize::MAX && n * (1 + b) * 4096
            <= u64::MAX,
    ensures
        positions(res) == meta_all_write_pos_s(version, data_par_burst),
{
    match data_par_burst {
        None => {
            let mut res: PositionList = position_list_with_capacity(1);
            position_list_push(&mut res, 0);
            assert(positions(res) =~= seq![0u64]);
            res
        },
        Some((_, parity, burst)) => calc_rs_enabled_meta_dup_write_all_s(version, parity, burst),
    }
}

/// Byte offset of the data or parity block `seq_num`.
pub fn calc_data_block_write_pos(
    version: Version,
    seq_num: u32,
    data_par_burst: Option<(usize, usize, usize)>,
) -> (r: u64)
    requires
        seq_num >= SBX_FIRST_DATA_SEQ_NUM,
        data_par_burst matches Some((m, n, b)) ==> (b > 0 ==> m + n > 0) && ((m + n) * b + n
            + seq_num) * 4096 <= u64::MAX,
    ensures
        r == data_write_pos(version, seq_num as int, data_par_burst),
{
    match data_par_burst {
        None => {
            let block_size: u64 = ver_to_block_size(version) as u64;
            assert(seq_num * block_size <= 0xFFFF_FFFF * 4096) by (nonlinear_arith)
                requires
                    0 <= seq_num <= 0xFFFF_FFFF,
                    0 <= block_size <= 4096,
            ;
            seq_num as u64 * block_size
        },
        Some((data, parity, burst)) => calc_rs_enabled_data_write_pos(
            seq_num,
            version,
            data,
            parity,
            burst,
        ),
    }
}

} // verus!
