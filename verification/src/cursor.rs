//! Walking the one-based index range `1..=len` of an OpenCASCADE sequence.
//!
//! OCCT collections (label sequences, indexed shape maps, distance solutions,
//! tangential-deflection points) are addressed with indices starting at 1.
//! `IndexCursor` is the position of an iterator over such a collection: each
//! call of `next` hands out the index of the element to fetch next, in
//! increasing order, and `None` once the range is used up.
use vstd::prelude::*;

verus! {

/// The indices `lo..=hi`, in increasing order (empty when `lo > hi`).
pub open spec fn index_range(lo: int, hi: int) -> Seq<int> {
    if lo <= hi {
        Seq::new((hi - lo + 1) as nat, |k: int| lo + k)
    } else {
        Seq::empty()
    }
}

/// Position of an iteration over the one-based indices `1..=len`.
pub struct IndexCursor {
    /// The index that `next` hands out on its next call.
    index: i64,
    /// The number of elements of the collection.
    len: i32,
}

impl IndexCursor {
    #[verifier::type_invariant]
    spec fn inv(self) -> bool {
        &&& 1 <= self.index
        &&& self.index <= (if self.len < 0 { 0 } else { self.len as int }) + 1
    }

    /// The indices that are still to be handed out, in order.
    pub closed spec fn remaining(self) -> Seq<int> {
        index_range(self.index as int, self.len as int)
    }

    /// The length of the collection this cursor walks over.
    pub closed spec fn len_spec(self) -> int {
        self.len as int
    }

    /// A cursor over a collection of `len` elements, at its first index.
    /// A collection of negative length is treated as empty.
    pub fn new(len: i32) -> (c: IndexCursor)
        ensures
            c.remaining() == index_range(1, len as int),
            c.len_spec() == len,
    {
        IndexCursor { index: 1, len }
    }

    /// Hands out the next index, or `None` once `len` has been passed.
    /// After the first `None` every later call gives `None` too.
    pub fn next(&mut self) -> (r: Option<i32>)
        ensures
            final(self).len_spec() == old(self).len_spec(),
            old(self).remaining().len() == 0 ==> r is None && final(self).remaining()
                == old(self).remaining(),
            old(self).remaining().len() > 0 ==> r == Some(old(self).remaining()[0] as i32)
                && final(self).remaining() == old(self).remaining().drop_first(),
    {
        proof {
            use_type_invariant(&*self);
        }
        if self.index > self.len as i64 {
            return None;
        }
        let i = self.index as i32;
        self.index = self.index + 1;
        assert(self.remaining() =~= old(self).remaining().drop_first());
        Some(i)
    }
}

/// Law: a cursor over `len` elements hands out exactly `1, 2, ..., len`.
pub proof fn lemma_new_cursor_walks_all(len: i32)
    ensures
        index_range(1, len as int).len() == (if len < 0 { 0 } else { len as int }),
        forall|k: int|
            0 <= k < index_range(1, len as int).len() ==> #[trigger] index_range(
                1,
                len as int,
            )[k] == k + 1,
{
}

} // verus!
