//! Small operations on byte buffers that the codec and the pipelines share.

use vstd::prelude::*;

verus! {

/// `n` bytes of value `v`.
pub open spec fn repeated(v: u8, n: nat) -> Seq<u8> {
    Seq::new(n, |i: int| v)
}

/// A vector with the bytes `bytes[from..to]`.
pub fn copy_range_to_vec(bytes: &[u8], from: usize, to: usize) -> (r: Vec<u8>)
    requires
        from <= to <= bytes@.len(),
    ensures
        r@ == bytes@.subrange(from as int, to as int),
{
    let mut r: Vec<u8> = Vec::new();
    let mut i: usize = from;
    while i < to
        invariant
            from <= i <= to <= bytes@.len(),
            r@ == bytes@.subrange(from as int, i as int),
        decreases to - i,
    {
        r.push(bytes[i]);
        assert(r@ =~= bytes@.subrange(from as int, i + 1));
        i += 1;
    }
    r
}

/// A vector with the same bytes.
pub fn clone_bytes(bytes: &Vec<u8>) -> (r: Vec<u8>)
    ensures
        r@ == bytes@,
{
    let r = copy_range_to_vec(bytes.as_slice(), 0, bytes.len());
    assert(bytes@.subrange(0, bytes@.len() as int) =~= bytes@);
    r
}

/// Appends `src` to a vector.
pub fn append_bytes(v: &mut Vec<u8>, src: &[u8])
    ensures
        final(v)@ == old(v)@ + src@,
{
    let n: usize = src.len();
    let mut i: usize = 0;
    while i < n
        invariant
            i <= n,
            n == src@.len(),
            v@ == old(v)@ + src@.subrange(0, i as int),
        decreases n - i,
    {
        v.push(src[i]);
        assert(v@ =~= old(v)@ + src@.subrange(0, i + 1));
        i += 1;
    }
    assert(src@.subrange(0, n as int) =~= src@);
}

/// Appends `n` bytes of value `value` to a vector.
pub fn append_repeated(v: &mut Vec<u8>, value: u8, n: usize)
    ensures
        final(v)@ == old(v)@ + repeated(value, n as nat),
{
    let mut i: usize = 0;
    while i < n
        invariant
            i <= n,
            v@ == old(v)@ + repeated(value, i as nat),
        decreases n - i,
    {
        v.push(value);
        assert(v@ =~= old(v)@ + repeated(value, (i + 1) as nat));
        i += 1;
    }
}

/// A vector of `n` zeros.
pub fn zeros(n: usize) -> (r: Vec<u8>)
    ensures
        r@ == repeated(0, n as nat),
{
    let mut r: Vec<u8> = Vec::new();
    append_repeated(&mut r, 0, n);
    assert(r@ =~= repeated(0, n as nat));
    r
}

/// Writes `src` into `buffer` at `at`; the bytes around it stay.
pub fn copy_into(buffer: &mut [u8], at: usize, src: &[u8])
    requires
        at + src@.len() <= old(buffer)@.len(),
    ensures
        final(buffer)@ == old(buffer)@.subrange(0, at as int) + src@ + old(buffer)@.skip(
            at + src@.len(),
        ),
        final(buffer)@.len() == old(buffer)@.len(),
{
    let n: usize = src.len();
    let total: usize = buffer.len();
    let mut i: usize = 0;
    while i < n
        invariant
            i <= n,
            n == src@.len(),
            at + n <= total,
            total == buffer@.len(),
            buffer@.len() == old(buffer)@.len(),
            buffer@ == old(buffer)@.subrange(0, at as int) + src@.subrange(0, i as int) + old(buffer)@.skip(at + i),
        decreases n - i,
    {
        buffer[at + i] = src[i];
        assert(buffer@ =~= old(buffer)@.subrange(0, at as int) + src@.subrange(0, i + 1) + old(buffer)@.skip(at + i + 1));
        i += 1;
    }
    assert(src@.subrange(0, n as int) =~= src@);
}

/// Sets `buffer[from..to]` to `v`; the bytes around it stay.
pub fn fill(buffer: &mut [u8], from: usize, to: usize, v: u8)
    requires
        from <= to <= old(buffer)@.len(),
    ensures
        final(buffer)@ == old(buffer)@.subrange(0, from as int) + repeated(v, (to - from) as nat)
            + old(buffer)@.skip(to as int),
        final(buffer)@.len() == old(buffer)@.len(),
{
    let mut i: usize = from;
    while i < to
        invariant
            from <= i <= to <= buffer@.len(),
            buffer@.len() == old(buffer)@.len(),
            buffer@ == old(buffer)@.subrange(0, from as int) + repeated(v, (i - from) as nat) + old(buffer)@.skip(i as int),
        decreases to - i,
    {
        buffer[i] = v;
        assert(buffer@ =~= old(buffer)@.subrange(0, from as int) + repeated(
            v,
            (i + 1 - from) as nat,
        ) + old(buffer)@.skip(i + 1));
        i += 1;
    }
}

/// Whether `bytes[from..to]` holds `v` throughout.
pub fn is_filled_with(bytes: &[u8], from: usize, to: usize, v: u8) -> (r: bool)
    requires
        from <= to <= bytes@.len(),
    ensures
        r == (bytes@.subrange(from as int, to as int) == repeated(v, (to - from) as nat)),
{
    let mut i: usize = from;
    while i < to
        invariant
            from <= i <= to <= bytes@.len(),
            bytes@.subrange(from as int, i as int) == repeated(v, (i - from) as nat),
        decreases to - i,
    {
        if bytes[i] != v {
            assert(bytes@.subrange(from as int, to as int)[i - from] != repeated(
                v,
                (to - from) as nat,
            )[i - from]);
            return false;
        }
        assert(bytes@.subrange(from as int, i + 1) =~= repeated(v, (i + 1 - from) as nat));
        i += 1;
    }
    true
}

/// Whether a buffer holds nothing but zero bytes.
pub fn buffer_is_blank(buffer: &[u8]) -> (r: bool)
    ensures
        r == (buffer@ == repeated(0, buffer@.len())),
{
    let r = is_filled_with(buffer, 0, buffer.len(), 0);
    assert(buffer@.subrange(0, buffer@.len() as int) =~= buffer@);
    r
}

/// Whether two buffers hold the same bytes.
pub fn bytes_equal(a: &[u8], b: &[u8]) -> (r: bool)
    ensures
        r == (a@ == b@),
{
    if a.len() != b.len() {
        return false;
    }
    let n: usize = a.len();
    let mut i: usize = 0;
    while i < n
        invariant
            i <= n,
            n == a@.len(),
            n == b@.len(),
            a@.subrange(0, i as int) == b@.subrange(0, i as int),
        decreases n - i,
    {
        if a[i] != b[i] {
            return false;
        }
        assert(a@.subrange(0, i + 1) =~= b@.subrange(0, i + 1)) by {
            assert forall|k: int| 0 <= k < i + 1 implies a@[k] == b@[k] by {
                if k < i {
                    assert(a@.subrange(0, i as int)[k] == b@.subrange(0, i as int)[k]);
                }
            }
        }
        i += 1;
    }
    assert(a@ =~= a@.subrange(0, n as int));
    assert(b@ =~= b@.subrange(0, n as int));
    true
}

} // verus!
