//! The short list of file positions that the layout functions hand out. It is
//! kept in a `SmallVec`, so the usual handful of positions needs no
//! allocation; this file states what the library takes for granted about it.

use vstd::prelude::*;
use smallvec::SmallVec;

verus! {

/// A list of file positions, held in a `SmallVec<[u64; 32]>`.
#[verifier::external_body]
pub struct PositionList {
    items: SmallVec<[u64; 32]>,
}

/// The items of a position list, first to last.
pub uninterp spec fn positions(list: PositionList) -> Seq<u64>;

impl View for PositionList {
    type V = Seq<u64>;

    open spec fn view(&self) -> Seq<u64> {
        positions(*self)
    }
}

/// `SmallVec::with_capacity`: a list with no items. The call reserves room
/// for `n` items and fails only when `n` items cannot be laid out in memory,
/// which the precondition rules out.
#[verifier::external_body]
pub(crate) fn position_list_with_capacity(n: usize) -> (list: PositionList)
    requires
        n * 8 <= isize::MAX,
    ensures
        positions(list) == Seq::<u64>::empty(),
{
    PositionList { items: SmallVec::with_capacity(n) }
}

/// `SmallVec::push`: the item is appended behind those already there. The
/// list may grow to the next power of two, so the precondition leaves room
/// for twice the items.
#[verifier::external_body]
pub(crate) fn position_list_push(list: &mut PositionList, value: u64)
    requires
        positions(*old(list)).len() * 16 + 16 <= isize::MAX,
    ensures
        positions(*final(list)) == positions(*old(list)).push(value),
{
    list.items.push(value)
}

/// `SmallVec::len`: the number of items.
#[verifier::external_body]
pub(crate) fn position_list_len(list: &PositionList) -> (n: usize)
    ensures
        n == positions(*list).len(),
{
    list.items.len()
}

/// Indexing a `SmallVec` (`Index::index` with a `usize`): the item at `i`.
#[verifier::external_body]
pub(crate) fn position_list_get(list: &PositionList, i: usize) -> (value: u64)
    requires
        i < positions(*list).len(),
    ensures
        value == positions(*list)[i as int],
{
    list.items[i]
}

/// Assigning through an index (`IndexMut::index_mut` with a `usize`): the
/// item at `i` is replaced, the others stay.
#[verifier::external_body]
pub(crate) fn position_list_set(list: &mut PositionList, i: usize, value: u64)
    requires
        i < positions(*old(list)).len(),
    ensures
        positions(*final(list)) == positions(*old(list)).update(i as int, value),
{
    list.items[i] = value;
}

impl PositionList {
    /// Number of positions in the list.
    pub fn len(&self) -> (n: usize)
        ensures
            n == self@.len(),
    {
        position_list_len(self)
    }

    /// The position at `i`, if the list is that long.
    pub fn get(&self, i: usize) -> (r: Option<u64>)
        ensures
            r == (if i < self@.len() {
                Some(self@[i as int])
            } else {
                None
            }),
    {
        if i < position_list_len(self) {
            Some(position_list_get(self, i))
        } else {
            None
        }
    }

    /// The positions as a vector, in the same order.
    pub fn to_vec(&self) -> (r: Vec<u64>)
        ensures
            r@ == self@,
    {
        let n: usize = position_list_len(self);
        let mut r: Vec<u64> = Vec::new();
        let mut i: usize = 0;
        while i < n
            invariant
                i <= n,
                n == self@.len(),
                r@ == self@.subrange(0, i as int),
            decreases n - i,
        {
            r.push(position_list_get(self, i));
            assert(r@ =~= self@.subrange(0, i + 1));
            i += 1;
        }
        assert(self@.subrange(0, n as int) =~= self@);
        r
    }
}

} // verus!
