//! A dictionary-encoded variable-length byte array.
//!
//! Each distinct byte value is stored exactly once in a contiguous buffer
//! (`data`); a table of offsets (`offsets`) marks the boundary of each
//! distinct-value slot; and a per-row index (`indices`) maps every logical
//! row to the slot holding its value, so repeated values share storage.
//!
//! Deduplication is a linear scan over the slots: this backs categorical,
//! string and binary columns, whose distinct values are assumed few, so a
//! hashing index would not pay for itself.

use vstd::prelude::*;
use vstd::slice::{slice_index_get, slice_subrange, slice_to_vec};

use crate::parallel;
use crate::parallel::reindexed_spec;
use crate::Error;

verus! {

/// The buffer after the byte range `[start, end)` is drained.
pub open spec fn compacted_buffer(b: Seq<u8>, start: int, end: int) -> Seq<u8>
    recommends
        0 <= start <= end <= b.len(),
{
    b.subrange(0, start) + b.subrange(end, b.len() as int)
}

/// The offset table after slot `s` is compacted away: the boundary closing
/// slot `s` disappears and every later boundary moves down by the slot's
/// byte length.
pub open spec fn compacted_offsets(o: Seq<usize>, s: int) -> Seq<usize>
    recommends
        0 <= s < o.len() - 1,
{
    Seq::new(
        (o.len() - 1) as nat,
        |j: int|
            if j <= s {
                o[j]
            } else {
                (o[j + 1] - (o[s + 1] - o[s])) as usize
            },
    )
}

/// The row index after slot `s` is compacted away: every identifier above
/// `s` moves down by one.
pub open spec fn reindexed_indices(v: Seq<usize>, removed: usize) -> Seq<usize> {
    Seq::new(v.len(), |j: int| reindexed_spec(v[j], removed))
}

#[derive(Debug)]
pub struct CategoricalArray {
    indices: Vec<usize>,
    offsets: Vec<usize>,
    data: Vec<u8>,
}

impl CategoricalArray {
    /// The per-row index: one slot identifier per logical row.
    pub closed spec fn index_seq(&self) -> Seq<usize> {
        self.indices@
    }

    /// The boundary table: slot `s` spans `[offsets[s], offsets[s + 1])`.
    pub closed spec fn offset_seq(&self) -> Seq<usize> {
        self.offsets@
    }

    /// The byte buffer holding the concatenation of all live distinct values.
    pub closed spec fn buffer(&self) -> Seq<u8> {
        self.data@
    }

    /// How many distinct-value slots are live.
    pub open spec fn slot_count(&self) -> int {
        self.offset_seq().len() - 1
    }

    /// The bytes of distinct-value slot `s`.
    pub open spec fn slot_bytes(&self, s: int) -> Seq<u8>
        recommends
            0 <= s < self.slot_count(),
    {
        self.buffer().subrange(self.offset_seq()[s] as int, self.offset_seq()[s + 1] as int)
    }

    /// Whether some slot holds exactly `bytes`.
    pub open spec fn has_slot(&self, bytes: Seq<u8>) -> bool {
        exists|s: int| 0 <= s < self.slot_count() && self.slot_bytes(s) == bytes
    }

    /// The slot holding `bytes`; meaningful only when `has_slot` holds,
    /// in which case it is unique because distinct slots never share content.
    pub open spec fn slot_for(&self, bytes: Seq<u8>) -> int {
        choose|s: int| 0 <= s < self.slot_count() && self.slot_bytes(s) == bytes
    }

    /// The offset table is monotonically non-decreasing, starts at zero and
    /// ends at the buffer's length.
    pub open spec fn offsets_wf(&self) -> bool {
        &&& self.offset_seq().len() >= 1
        &&& self.offset_seq()[0] == 0
        &&& self.offset_seq().last() == self.buffer().len()
        &&& forall|j: int, k: int|
            0 <= j <= k < self.offset_seq().len() ==> self.offset_seq()[j] <= self.offset_seq()[k]
    }

    /// Every row references a live slot.
    pub open spec fn indices_wf(&self) -> bool {
        forall|i: int|
            0 <= i < self.index_seq().len() ==> (#[trigger] self.index_seq()[i]) < self.slot_count()
    }

    /// Some row references slot `s`.
    pub open spec fn slot_referenced(&self, s: int) -> bool {
        exists|i: int| 0 <= i < self.index_seq().len() && #[trigger] self.index_seq()[i] == s
    }

    /// Every live slot is referenced by at least one row.
    pub open spec fn no_orphans(&self) -> bool {
        forall|s: int| 0 <= s < self.slot_count() ==> #[trigger] self.slot_referenced(s)
    }

    /// Distinct slots never hold byte-identical content.
    pub open spec fn slots_distinct(&self) -> bool {
        forall|s1: int, s2: int|
            0 <= s1 < s2 < self.slot_count() ==> self.slot_bytes(s1) != self.slot_bytes(s2)
    }

    /// The invariant every operation establishes and preserves.
    pub open spec fn wf(&self) -> bool {
        &&& self.offsets_wf()
        &&& self.indices_wf()
        &&& self.no_orphans()
        &&& self.slots_distinct()
    }

    pub fn new() -> (r: Self)
        ensures
            r.wf(),
            r@ == Seq::<Seq<u8>>::empty(),
            r.buffer() == Seq::<u8>::empty(),
            r.offset_seq() == seq![0usize],
            r.index_seq() == Seq::<usize>::empty(),
    {
        let mut offsets: Vec<usize> = Vec::new();
        offsets.push(0);
        let r = CategoricalArray { indices: Vec::new(), offsets, data: Vec::new() };
        proof {
            assert(r.offset_seq() =~= seq![0usize]);
            assert(r@ =~= Seq::<Seq<u8>>::empty());
        }
        r
    }

    pub fn len(&self) -> (r: usize)
        ensures
            r == self@.len(),
    {
        self.indices.len()
    }

    pub fn is_empty(&self) -> (r: bool)
        ensures
            r <==> self@.len() == 0,
    {
        self.indices.is_empty()
    }

    /// The raw buffer, exposed so callers can observe the storage footprint.
    pub fn buffer_bytes(&self) -> (r: &[u8])
        ensures
            r@ == self.buffer(),
    {
        self.data.as_slice()
    }

    /// The boundary table, exposed for inspection.
    pub fn offset_values(&self) -> (r: &[usize])
        ensures
            r@ == self.offset_seq(),
    {
        self.offsets.as_slice()
    }

    /// The per-row slot identifiers, exposed for inspection.
    pub fn index_values(&self) -> (r: &[usize])
        ensures
            r@ == self.index_seq(),
    {
        self.indices.as_slice()
    }

    /// The deduplication scan: the first slot whose window of the buffer
    /// matches `bytes` byte for byte, if any.
    fn offset_position(&self, bytes: &[u8]) -> (r: Option<usize>)
        requires
            self.offsets_wf(),
        ensures
            match r {
                Some(s) => 0 <= s < self.slot_count() && self.slot_bytes(s as int) == bytes@,
                None => !self.has_slot(bytes@),
            },
    {
        let n = self.offsets.len() - 1;
        let mut s: usize = 0;
        while s < n
            invariant
                self.offsets_wf(),
                n == self.slot_count(),
                0 <= s <= n,
                forall|t: int| 0 <= t < s ==> self.slot_bytes(t) != bytes@,
            decreases n - s,
        {
            let start = self.offsets[s];
            let end = self.offsets[s + 1];
            let window = slice_subrange(self.data.as_slice(), start, end);
            if bytes_equal(window, bytes) {
                return Some(s);
            }
            s += 1;
        }
        None
    }

    /// True iff the deduplication scan finds an exact match, which under the
    /// invariant is exactly when some row holds `bytes`.
    pub fn contains(&self, bytes: &[u8]) -> (r: bool)
        requires
            self.wf(),
        ensures
            r == self@.contains(bytes@),
    {
        let r = match self.offset_position(bytes) {
            Some(_) => true,
            _ => false,
        };
        proof {
            self.lemma_has_slot_iff_row(bytes@);
        }
        r
    }

    /// A zero-copy view of the value at row `i`, bounded by the row's slot
    /// boundaries; no value when `i` is out of range. Never mutates.
    pub fn get(&self, i: usize) -> (r: Option<&[u8]>)
        requires
            self.wf(),
        ensures
            match r {
                Some(bytes) => i < self@.len() && bytes@ == self@[i as int],
                None => i >= self@.len(),
            },
    {
        if i < self.indices.len() {
            let offset_ptr = self.indices[i];
            // the row's slot is live, so both of its boundaries are in the
            // table and its byte range lies inside the buffer
            let boundary_count = self.offsets.len();
            proof {
                assert(self.index_seq()[i as int] < self.slot_count());
                let p = offset_ptr as int;
                assert(p + 1 < boundary_count);
                assert(self.offset_seq()[p] <= self.offset_seq()[p + 1]);
                assert(self.offset_seq()[p + 1] <= self.offset_seq()[self.offset_seq().len() - 1]);
            }
            let start = self.offsets[offset_ptr];
            let end = self.offsets[offset_ptr + 1];
            Some(slice_subrange(self.data.as_slice(), start, end))
        } else {
            None
        }
    }

    /// Appends a row holding `bytes` at the current end; equivalent to
    /// `insert(len, bytes)`.
    pub fn push(&mut self, bytes: &[u8])
        requires
            old(self).wf(),
            old(self).buffer().len() + bytes@.len() <= usize::MAX,
        ensures
            final(self).wf(),
            final(self)@ == old(self)@.push(bytes@),
            old(self).has_slot(bytes@) ==> {
                &&& final(self).buffer() == old(self).buffer()
                &&& final(self).offset_seq() == old(self).offset_seq()
                &&& final(self).index_seq() == old(self).index_seq().push(
                    old(self).slot_for(bytes@) as usize,
                )
            },
            !old(self).has_slot(bytes@) ==> {
                &&& final(self).buffer() == old(self).buffer() + bytes@
                &&& final(self).offset_seq() == old(self).offset_seq().push(
                    (old(self).buffer().len() + bytes@.len()) as usize,
                )
                &&& final(self).index_seq() == old(self).index_seq().push(
                    old(self).slot_count() as usize,
                )
            },
    {
        let indices_len = self.indices.len();
        let r = self.insert(indices_len, bytes);
        proof {
            assert(r is Ok);
            assert(old(self)@.insert(old(self)@.len() as int, bytes@) =~= old(self)@.push(bytes@));
            assert(old(self).index_seq().insert(
                old(self).index_seq().len() as int,
                old(self).slot_for(bytes@) as usize,
            ) =~= old(self).index_seq().push(old(self).slot_for(bytes@) as usize));
            assert(old(self).index_seq().insert(
                old(self).index_seq().len() as int,
                old(self).slot_count() as usize,
            ) =~= old(self).index_seq().push(old(self).slot_count() as usize));
        }
    }

    /// Inserts a row holding `bytes` at position `index`, shifting the rows
    /// at and after it up by one. The value is resolved through the
    /// deduplication scan: a hit reuses the existing slot and leaves the
    /// buffer and offset table untouched; a miss appends the bytes to the
    /// buffer and one new boundary to the offset table. No existing slot
    /// identifier or row is renumbered. Fails with `OutOfRange`, leaving the
    /// state unchanged, iff `index > len`.
    pub fn insert(&mut self, index: usize, bytes: &[u8]) -> (r: Result<(), Error>)
        requires
            old(self).wf(),
            old(self).buffer().len() + bytes@.len() <= usize::MAX,
        ensures
            final(self).wf(),
            (match r {
                Err(e) => {
                    &&& e == Error::OutOfRange
                    &&& index > old(self)@.len()
                    &&& final(self).buffer() == old(self).buffer()
                    &&& final(self).offset_seq() == old(self).offset_seq()
                    &&& final(self).index_seq() == old(self).index_seq()
                },
                Ok(()) => {
                    &&& index <= old(self)@.len()
                    &&& final(self)@ == old(self)@.insert(index as int, bytes@)
                    &&& old(self).has_slot(bytes@) ==> {
                        &&& final(self).buffer() == old(self).buffer()
                        &&& final(self).offset_seq() == old(self).offset_seq()
                        &&& final(self).index_seq() == old(self).index_seq().insert(
                            index as int,
                            old(self).slot_for(bytes@) as usize,
                        )
                    }
                    &&& !old(self).has_slot(bytes@) ==> {
                        &&& final(self).buffer() == old(self).buffer() + bytes@
                        &&& final(self).offset_seq() == old(self).offset_seq().push(
                            (old(self).buffer().len() + bytes@.len()) as usize,
                        )
                        &&& final(self).index_seq() == old(self).index_seq().insert(
                            index as int,
                            old(self).slot_count() as usize,
                        )
                    }
                },
            }),
    {
        if index > self.indices.len() {
            return Err(Error::OutOfRange);
        }
        if let Some(ptr) = self.offset_position(bytes) {
            self.indices.insert(index, ptr);
            proof {
                old(self).lemma_slot_unique(bytes@, ptr as int);
                old(self).index_seq().insert_ensures(index as int, ptr);
                self.lemma_insert_existing_wf(*old(self), index as int, ptr);
                assert(self@ =~= old(self)@.insert(index as int, bytes@));
            }
            return Ok(());
        }
        let new_slot = self.offsets.len() - 1;
        let end = self.data.len() + bytes.len();
        self.offsets.push(end);
        self.indices.insert(index, new_slot);
        push_bytes(&mut self.data, bytes);
        proof {
            old(self).index_seq().insert_ensures(index as int, new_slot);
            self.lemma_insert_new_wf(*old(self), index as int, new_slot, bytes@);
            assert(self@ =~= old(self)@.insert(index as int, bytes@));
        }
        Ok(())
    }

    /// A slot holding `bytes` is unique, because distinct slots never hold
    /// identical content.
    pub proof fn lemma_slot_unique(&self, bytes: Seq<u8>, s: int)
        requires
            self.slots_distinct(),
            0 <= s < self.slot_count(),
            self.slot_bytes(s) == bytes,
        ensures
            self.has_slot(bytes),
            self.slot_for(bytes) == s,
    {
        assert(self.has_slot(bytes));
        let s2 = self.slot_for(bytes);
        if s2 < s {
            assert(self.slot_bytes(s2) != self.slot_bytes(s));
        } else if s < s2 {
            assert(self.slot_bytes(s) != self.slot_bytes(s2));
        }
    }

    /// After inserting a reference to an existing slot into the row index,
    /// with buffer and offsets untouched, the invariant still holds.
    proof fn lemma_insert_existing_wf(&self, pre: Self, index: int, ptr: usize)
        requires
            pre.wf(),
            0 <= index <= pre.index_seq().len(),
            (ptr as int) < pre.slot_count(),
            self.buffer() == pre.buffer(),
            self.offset_seq() == pre.offset_seq(),
            self.index_seq() == pre.index_seq().insert(index, ptr),
        ensures
            self.wf(),
    {
        pre.index_seq().insert_ensures(index, ptr);
        assert forall|i: int|
            0 <= i < self.index_seq().len() implies (#[trigger] self.index_seq()[i])
            < self.slot_count() by {
            if i < index {
                assert(self.index_seq()[i] == pre.index_seq()[i]);
            } else if i > index {
                assert(self.index_seq()[i] == pre.index_seq()[i - 1]);
            }
        }
        assert forall|s: int| 0 <= s < self.slot_count() implies #[trigger] self.slot_referenced(
            s,
        ) by {
            if s == ptr as int {
                assert(self.index_seq()[index] == ptr);
            } else {
                assert(pre.slot_referenced(s));
                let i = choose|i: int|
                    0 <= i < pre.index_seq().len() && #[trigger] pre.index_seq()[i] == s;
                if i < index {
                    assert(self.index_seq()[i] == s);
                } else {
                    assert(self.index_seq()[i + 1] == s);
                }
            }
        }
        assert forall|s1: int, s2: int|
            0 <= s1 < s2 < self.slot_count() implies self.slot_bytes(s1) != self.slot_bytes(
            s2,
        ) by {
            assert(self.slot_bytes(s1) == pre.slot_bytes(s1));
            assert(self.slot_bytes(s2) == pre.slot_bytes(s2));
        }
    }

    /// After appending a genuinely new value — bytes to the buffer, one
    /// boundary to the offset table, one reference into the row index — the
    /// invariant still holds, the old slots keep their content, and the new
    /// slot holds exactly the appended bytes.
    proof fn lemma_insert_new_wf(&self, pre: Self, index: int, new_slot: usize, bytes: Seq<u8>)
        requires
            pre.wf(),
            !pre.has_slot(bytes),
            0 <= index <= pre.index_seq().len(),
            new_slot as int == pre.slot_count(),
            pre.buffer().len() + bytes.len() <= usize::MAX,
            self.buffer() == pre.buffer() + bytes,
            self.offset_seq() == pre.offset_seq().push(
                (pre.buffer().len() + bytes.len()) as usize,
            ),
            self.index_seq() == pre.index_seq().insert(index, new_slot),
        ensures
            self.wf(),
            forall|s: int| 0 <= s < pre.slot_count() ==> self.slot_bytes(s) == pre.slot_bytes(s),
            self.slot_bytes(pre.slot_count()) == bytes,
    {
        pre.index_seq().insert_ensures(index, new_slot);
        let n = pre.slot_count();
        assert(self.offset_seq().len() == pre.offset_seq().len() + 1);
        assert(pre.offset_seq().last() == pre.buffer().len());
        assert forall|j: int, k: int|
            0 <= j <= k < self.offset_seq().len() implies self.offset_seq()[j]
            <= self.offset_seq()[k] by {
            if k < self.offset_seq().len() - 1 {
                assert(pre.offset_seq()[j] <= pre.offset_seq()[k]);
            } else if j < k {
                assert(pre.offset_seq()[j] <= pre.offset_seq()[pre.offset_seq().len() - 1]);
            }
        }
        assert forall|s: int| 0 <= s < n implies self.slot_bytes(s) == pre.slot_bytes(s) by {
            assert(pre.offset_seq()[s] <= pre.offset_seq()[s + 1]);
            assert(pre.offset_seq()[s + 1] <= pre.offset_seq()[pre.offset_seq().len() - 1]);
            assert(self.slot_bytes(s) =~= pre.slot_bytes(s));
        }
        assert(self.slot_bytes(n) =~= bytes);
        assert forall|s: int| 0 <= s < self.slot_count() implies #[trigger] self.slot_referenced(
            s,
        ) by {
            if s == n {
                assert(self.index_seq()[index] == new_slot);
            } else {
                assert(pre.slot_referenced(s));
                let i = choose|i: int|
                    0 <= i < pre.index_seq().len() && #[trigger] pre.index_seq()[i] == s;
                if i < index {
                    assert(self.index_seq()[i] == s);
                } else {
                    assert(self.index_seq()[i + 1] == s);
                }
            }
        }
    }

    /// Deletes the row at `position` and returns its bytes, owned. If that
    /// row was the slot's last reference, the slot is compacted away in the
    /// same operation: its bytes are drained from the buffer, its boundary
    /// leaves the offset table, every later boundary moves down by the
    /// slot's byte length, and every greater slot identifier in the row
    /// index moves down by one. Fails with `OutOfRange`, leaving the state
    /// unchanged, iff `position >= len`.
    pub fn remove(&mut self, position: usize) -> (r: Result<Vec<u8>, Error>)
        requires
            old(self).wf(),
        ensures
            final(self).wf(),
            (match r {
                Err(e) => {
                    &&& e == Error::OutOfRange
                    &&& position >= old(self)@.len()
                    &&& final(self).buffer() == old(self).buffer()
                    &&& final(self).offset_seq() == old(self).offset_seq()
                    &&& final(self).index_seq() == old(self).index_seq()
                },
                Ok(v) => {
                    &&& position < old(self)@.len()
                    &&& v@ == old(self)@[position as int]
                    &&& final(self)@ == old(self)@.remove(position as int)
                    &&& ({
                        let s = old(self).index_seq()[position as int];
                        let kept = old(self).index_seq().remove(position as int);
                        if kept.contains(s) {
                            &&& final(self).buffer() == old(self).buffer()
                            &&& final(self).offset_seq() == old(self).offset_seq()
                            &&& final(self).index_seq() == kept
                        } else {
                            &&& final(self).buffer() == compacted_buffer(
                                old(self).buffer(),
                                old(self).offset_seq()[s as int] as int,
                                old(self).offset_seq()[s as int + 1] as int,
                            )
                            &&& final(self).buffer().len() == old(self).buffer().len() - old(
                                self,
                            )@[position as int].len()
                            &&& final(self).offset_seq() == compacted_offsets(
                                old(self).offset_seq(),
                                s as int,
                            )
                            &&& final(self).index_seq() == reindexed_indices(kept, s)
                        }
                    })
                },
            }),
    {
        if position >= self.indices.len() {
            return Err(Error::OutOfRange);
        }
        let offset_ptr = self.indices[position];
        // the row's slot is live, so both of its boundaries are in the
        // table and its byte range lies inside the buffer
        let boundary_count = self.offsets.len();
        proof {
            assert(old(self).index_seq()[position as int] < old(self).slot_count());
            let p = offset_ptr as int;
            let last = old(self).offset_seq().len() - 1;
            assert(p + 1 < boundary_count);
            assert(old(self).offset_seq()[p] <= old(self).offset_seq()[p + 1]);
            assert(old(self).offset_seq()[p + 1] <= old(self).offset_seq()[last]);
        }
        self.indices.remove(position);
        let offset_start = self.offsets[offset_ptr];
        let offset_end = self.offsets[offset_ptr + 1];
        let removed_bytes: Vec<u8> = slice_to_vec(
            slice_subrange(self.data.as_slice(), offset_start, offset_end),
        );
        proof {
            assert(removed_bytes@ == old(self).slot_bytes(offset_ptr as int));
            assert(old(self)@[position as int] == old(self).slot_bytes(offset_ptr as int));
        }
        if !index_contains(&self.indices, offset_ptr) {
            let offset_len = offset_end - offset_start;
            self.data = drained_vec(&self.data, offset_start, offset_end);
            self.offsets.remove(offset_ptr + 1);
            proof {
                old(self).offset_seq().remove_ensures(offset_ptr as int + 1);
                assert forall|j: int|
                    offset_ptr as int + 1 <= j < self.offset_seq().len() implies offset_len
                    <= #[trigger] self.offset_seq()[j] by {
                    assert(self.offset_seq()[j] == old(self).offset_seq()[j + 1]);
                    assert(old(self).offset_seq()[offset_ptr as int + 1] <= old(
                        self,
                    ).offset_seq()[j + 1]);
                }
            }
            parallel::shift_tail_down(&mut self.offsets, offset_ptr + 1, offset_len);
            parallel::reindex_after(&mut self.indices, offset_ptr);
            proof {
                assert(self.offset_seq() =~= compacted_offsets(
                    old(self).offset_seq(),
                    offset_ptr as int,
                ));
                assert(self.index_seq() =~= reindexed_indices(
                    old(self).index_seq().remove(position as int),
                    offset_ptr,
                ));
                self.lemma_compact_wf(*old(self), position as int, offset_ptr);
            }
            Ok(removed_bytes)
        } else {
            proof {
                self.lemma_remove_keep_wf(*old(self), position as int, offset_ptr);
            }
            Ok(removed_bytes)
        }
    }

    /// After deleting one row whose slot is still referenced by another row,
    /// with buffer and offsets untouched, the invariant still holds and the
    /// remaining rows keep their values.
    proof fn lemma_remove_keep_wf(&self, pre: Self, position: int, s: usize)
        requires
            pre.wf(),
            0 <= position < pre.index_seq().len(),
            pre.index_seq()[position] == s,
            pre.index_seq().remove(position).contains(s),
            self.buffer() == pre.buffer(),
            self.offset_seq() == pre.offset_seq(),
            self.index_seq() == pre.index_seq().remove(position),
        ensures
            self.wf(),
            self@ == pre@.remove(position),
    {
        pre.index_seq().remove_ensures(position);
        pre@.remove_ensures(position);
        assert forall|i: int|
            0 <= i < self.index_seq().len() implies (#[trigger] self.index_seq()[i])
            < self.slot_count() by {
            if i < position {
                assert(self.index_seq()[i] == pre.index_seq()[i]);
            } else {
                assert(self.index_seq()[i] == pre.index_seq()[i + 1]);
            }
        }
        assert forall|t: int| 0 <= t < self.slot_count() implies #[trigger] self.slot_referenced(
            t,
        ) by {
            if t == s as int {
                let i = choose|i: int|
                    0 <= i < self.index_seq().len() && self.index_seq()[i] == s;
                assert(self.index_seq()[i] == t);
            } else {
                assert(pre.slot_referenced(t));
                let i = choose|i: int|
                    0 <= i < pre.index_seq().len() && #[trigger] pre.index_seq()[i] == t;
                if i < position {
                    assert(self.index_seq()[i] == t);
                } else {
                    assert(i != position);
                    assert(self.index_seq()[i - 1] == t);
                }
            }
        }
        assert forall|s1: int, s2: int|
            0 <= s1 < s2 < self.slot_count() implies self.slot_bytes(s1) != self.slot_bytes(
            s2,
        ) by {
            assert(self.slot_bytes(s1) == pre.slot_bytes(s1));
            assert(self.slot_bytes(s2) == pre.slot_bytes(s2));
        }
        assert forall|i: int| 0 <= i < self@.len() implies self@[i] == pre@.remove(position)[i] by {
            if i < position {
                assert(self.index_seq()[i] == pre.index_seq()[i]);
            } else {
                assert(self.index_seq()[i] == pre.index_seq()[i + 1]);
            }
        }
        assert(self@ =~= pre@.remove(position));
    }

    /// After deleting the last row referencing slot `s` and compacting —
    /// bytes drained, boundary removed, later boundaries shifted down,
    /// greater slot identifiers reindexed — the invariant still holds and
    /// every surviving row keeps its value.
    proof fn lemma_compact_wf(&self, pre: Self, position: int, s: usize)
        requires
            pre.wf(),
            0 <= position < pre.index_seq().len(),
            pre.index_seq()[position] == s,
            !pre.index_seq().remove(position).contains(s),
            self.buffer() == compacted_buffer(
                pre.buffer(),
                pre.offset_seq()[s as int] as int,
                pre.offset_seq()[s as int + 1] as int,
            ),
            self.offset_seq() == compacted_offsets(pre.offset_seq(), s as int),
            self.index_seq() == reindexed_indices(pre.index_seq().remove(position), s),
        ensures
            self.wf(),
            self@ == pre@.remove(position),
            self.buffer().len() == pre.buffer().len() - pre.slot_bytes(s as int).len(),
    {
        let o = pre.offset_seq();
        let nn = o.len() - 1;
        let start = o[s as int] as int;
        let end = o[s as int + 1] as int;
        let delta = end - start;
        pre.index_seq().remove_ensures(position);
        pre@.remove_ensures(position);
        assert(s < nn);
        assert(o[s as int] <= o[s as int + 1]);
        assert(o[s as int + 1] <= o[nn]);
        assert(o[0] <= o[s as int]);
        assert(self.buffer().len() == pre.buffer().len() - delta);
        assert(self.offset_seq().len() == nn);
        // The offset table stays monotonic, anchored at zero and the new
        // buffer length.
        assert forall|j: int, k: int|
            0 <= j <= k < self.offset_seq().len() implies self.offset_seq()[j]
            <= self.offset_seq()[k] by {
            if k <= s as int {
                assert(o[j] <= o[k]);
            } else if j <= s as int {
                assert(o[j] <= o[s as int]);
                assert(o[s as int + 1] <= o[k + 1]);
            } else {
                assert(o[j + 1] <= o[k + 1]);
                assert(o[s as int + 1] <= o[j + 1]);
            }
        }
        assert(self.offset_seq()[0] == 0) by {
            assert(0 <= s as int);
        }
        assert(self.offset_seq().last() == self.buffer().len()) by {
            if s as int == nn - 1 {
                assert(self.offset_seq()[nn - 1] == o[s as int]);
            } else {
                assert(o[s as int + 1] <= o[nn]);
            }
        }
        // Each surviving slot keeps its bytes: slots below `s` are unmoved,
        // slots above it shift down by one place and `delta` bytes.
        assert forall|t: int| 0 <= t < nn - 1 implies #[trigger] self.slot_bytes(t) == (if t
            < s as int {
            pre.slot_bytes(t)
        } else {
            pre.slot_bytes(t + 1)
        }) by {
            if t < s as int {
                assert(o[t] <= o[t + 1]);
                assert(o[t + 1] <= o[s as int]);
                assert(self.offset_seq()[t] == o[t]);
                assert(self.offset_seq()[t + 1] == o[t + 1]);
                assert forall|m: int| 0 <= m < o[t + 1] - o[t] implies self.slot_bytes(t)[m]
                    == pre.slot_bytes(t)[m] by {
                    assert(self.buffer()[o[t] + m] == pre.buffer()[o[t] + m]);
                }
                assert(self.slot_bytes(t) =~= pre.slot_bytes(t));
            } else {
                assert(o[s as int + 1] <= o[t + 1]);
                assert(o[t + 1] <= o[t + 2]);
                assert(o[t + 2] <= o[nn]);
                assert(self.offset_seq()[t] == (o[t + 1] - delta) as usize || (t == s as int
                    && self.offset_seq()[t] == o[s as int]));
                assert(self.offset_seq()[t + 1] == (o[t + 2] - delta) as usize);
                assert forall|m: int| 0 <= m < o[t + 2] - o[t + 1] implies self.slot_bytes(t)[m]
                    == pre.slot_bytes(t + 1)[m] by {
                    assert(self.buffer()[o[t + 1] - delta + m] == pre.buffer().subrange(
                        end,
                        pre.buffer().len() as int,
                    )[o[t + 1] - end + m]);
                    assert(self.buffer()[o[t + 1] - delta + m] == pre.buffer()[o[t + 1] + m]);
                }
                assert(self.slot_bytes(t) =~= pre.slot_bytes(t + 1));
            }
        }
        // Row identifiers stay in range.
        assert forall|i: int|
            0 <= i < self.index_seq().len() implies (#[trigger] self.index_seq()[i])
            < self.slot_count() by {
            let kept = pre.index_seq().remove(position);
            assert(self.index_seq()[i] == reindexed_spec(kept[i], s));
            if i < position {
                assert(kept[i] == pre.index_seq()[i]);
            } else {
                assert(kept[i] == pre.index_seq()[i + 1]);
            }
            assert(kept[i] != s);
            assert(kept[i] < nn);
        }
        // No orphan slots survive.
        assert forall|t: int| 0 <= t < self.slot_count() implies #[trigger] self.slot_referenced(
            t,
        ) by {
            let kept = pre.index_seq().remove(position);
            let told = if t < s as int {
                t
            } else {
                t + 1
            };
            assert(pre.slot_referenced(told));
            let i = choose|i: int|
                0 <= i < pre.index_seq().len() && #[trigger] pre.index_seq()[i] == told;
            assert(i != position);
            let ik = if i < position {
                i
            } else {
                i - 1
            };
            assert(kept[ik] == told);
            assert(self.index_seq()[ik] == reindexed_spec(kept[ik], s));
            assert(self.index_seq()[ik] == t);
        }
        // Distinct surviving slots still hold distinct content.
        assert forall|s1: int, s2: int|
            0 <= s1 < s2 < self.slot_count() implies self.slot_bytes(s1) != self.slot_bytes(
            s2,
        ) by {
            let t1 = if s1 < s as int {
                s1
            } else {
                s1 + 1
            };
            let t2 = if s2 < s as int {
                s2
            } else {
                s2 + 1
            };
            assert(self.slot_bytes(s1) == pre.slot_bytes(t1));
            assert(self.slot_bytes(s2) == pre.slot_bytes(t2));
            assert(pre.slot_bytes(t1) != pre.slot_bytes(t2));
        }
        // Every surviving row keeps its value.
        assert forall|i: int| 0 <= i < self@.len() implies self@[i] == pre@.remove(position)[i] by {
            let kept = pre.index_seq().remove(position);
            assert(self.index_seq()[i] == reindexed_spec(kept[i], s));
            if i < position {
                assert(kept[i] == pre.index_seq()[i]);
            } else {
                assert(kept[i] == pre.index_seq()[i + 1]);
            }
            assert(kept[i] != s);
            assert(kept[i] < nn);
            if kept[i] < s {
                assert(self.slot_bytes(kept[i] as int) == pre.slot_bytes(kept[i] as int));
            } else {
                assert(self.slot_bytes(kept[i] as int - 1) == pre.slot_bytes(kept[i] as int));
            }
        }
        assert(self@ =~= pre@.remove(position));
    }

    /// Under the invariant, a slot holds `bytes` iff some row's value is
    /// `bytes`: slots are live only while referenced, and rows only ever
    /// reference live slots.
    proof fn lemma_has_slot_iff_row(&self, bytes: Seq<u8>)
        requires
            self.wf(),
        ensures
            self.has_slot(bytes) == self@.contains(bytes),
    {
        if self.has_slot(bytes) {
            let s = choose|s: int| 0 <= s < self.slot_count() && self.slot_bytes(s) == bytes;
            assert(self.slot_referenced(s));
            let i = choose|i: int|
                0 <= i < self.index_seq().len() && #[trigger] self.index_seq()[i] == s;
            assert(self@[i] == bytes);
        }
        if self@.contains(bytes) {
            let i = choose|i: int| 0 <= i < self@.len() && self@[i] == bytes;
            assert(0 <= self.index_seq()[i] < self.slot_count());
            assert(self.slot_bytes(self.index_seq()[i] as int) == bytes);
        }
    }
}

impl View for CategoricalArray {
    type V = Seq<Seq<u8>>;

    /// The logical rows: row `i` is the byte value its slot holds.
    open spec fn view(&self) -> Seq<Seq<u8>> {
        Seq::new(self.index_seq().len(), |i: int| self.slot_bytes(self.index_seq()[i] as int))
    }
}

/// Law: every operation establishes `wf`, and under it every slot of the
/// offset table has at least one live referencing entry in the row index —
/// no orphan slot ever survives an operation.
pub proof fn lemma_no_orphan_slots(a: CategoricalArray)
    requires
        a.wf(),
    ensures
        forall|s: int| 0 <= s < a.slot_count() ==> a.slot_referenced(s),
{
}

/// Law: over the row model that `push` is specified against, a push writes
/// its value at position `len` and leaves every earlier row's value as it
/// was — so `get(i)`, which returns row `i`, yields exactly the bytes last
/// written at logical position `i`, for any sequence of pushes.
pub proof fn lemma_push_round_trip(rows: Seq<Seq<u8>>, v: Seq<u8>)
    ensures
        rows.push(v)[rows.len() as int] == v,
        forall|i: int| 0 <= i < rows.len() ==> rows.push(v)[i] == rows[i],
{
}

/// Law: two rows holding byte-identical values always reference the same
/// slot, because distinct slots never hold identical content.
pub proof fn lemma_rows_share_slot(a: CategoricalArray, i: int, j: int)
    requires
        a.wf(),
        0 <= i < a@.len(),
        0 <= j < a@.len(),
        a@[i] == a@[j],
    ensures
        a.index_seq()[i] == a.index_seq()[j],
{
    let s1 = a.index_seq()[i] as int;
    let s2 = a.index_seq()[j] as int;
    assert(s1 < a.slot_count() && s2 < a.slot_count());
    assert(a@[i] == a.slot_bytes(s1));
    assert(a@[j] == a.slot_bytes(s2));
    if s1 < s2 {
        assert(a.slot_bytes(s1) != a.slot_bytes(s2));
    } else if s2 < s1 {
        assert(a.slot_bytes(s2) != a.slot_bytes(s1));
    }
}

/// Law: over the row model that `insert` and `push` are specified against,
/// inserting at `len` is exactly a push, and inserting at position zero
/// keeps the new value at row zero and shifts every existing row position
/// up by one.
pub proof fn lemma_insert_boundary(rows: Seq<Seq<u8>>, v: Seq<u8>)
    ensures
        rows.insert(rows.len() as int, v) == rows.push(v),
        rows.insert(0, v).len() == rows.len() + 1,
        rows.insert(0, v)[0] == v,
        forall|i: int| 0 <= i < rows.len() ==> rows.insert(0, v)[i + 1] == rows[i],
{
    rows.insert_ensures(rows.len() as int, v);
    rows.insert_ensures(0, v);
    assert(rows.insert(rows.len() as int, v) =~= rows.push(v));
}

/// Whether some entry of `v` equals `x`.
fn index_contains(v: &Vec<usize>, x: usize) -> (r: bool)
    ensures
        r == v@.contains(x),
{
    let mut i: usize = 0;
    while i < v.len()
        invariant
            0 <= i <= v@.len(),
            forall|j: int| 0 <= j < i ==> v@[j] != x,
        decreases v@.len() - i,
    {
        if v[i] == x {
            return true;
        }
        i += 1;
    }
    false
}

/// A copy of `data` with the byte range `[start, end)` drained.
fn drained_vec(data: &Vec<u8>, start: usize, end: usize) -> (r: Vec<u8>)
    requires
        start <= end <= data@.len(),
    ensures
        r@ == compacted_buffer(data@, start as int, end as int),
{
    let mut r: Vec<u8> = Vec::new();
    let mut i: usize = 0;
    while i < start
        invariant
            start <= end <= data@.len(),
            0 <= i <= start,
            r@ == data@.subrange(0, i as int),
        decreases start - i,
    {
        r.push(data[i]);
        proof {
            assert(data@.subrange(0, i as int).push(data@[i as int]) =~= data@.subrange(
                0,
                i as int + 1,
            ));
        }
        i += 1;
    }
    let mut j = end;
    while j < data.len()
        invariant
            start <= end <= data@.len(),
            end <= j <= data@.len(),
            r@ == data@.subrange(0, start as int) + data@.subrange(end as int, j as int),
        decreases data@.len() - j,
    {
        r.push(data[j]);
        proof {
            assert((data@.subrange(0, start as int) + data@.subrange(end as int, j as int)).push(
                data@[j as int],
            ) =~= data@.subrange(0, start as int) + data@.subrange(end as int, j as int + 1));
        }
        j += 1;
    }
    proof {
        assert(r@ =~= compacted_buffer(data@, start as int, end as int));
    }
    r
}

/// Appends every byte of `bytes` to `data`, in order.
fn push_bytes(data: &mut Vec<u8>, bytes: &[u8])
    ensures
        final(data)@ == old(data)@ + bytes@,
{
    let mut i: usize = 0;
    while i < bytes.len()
        invariant
            0 <= i <= bytes@.len(),
            data@ == old(data)@ + bytes@.subrange(0, i as int),
        decreases bytes@.len() - i,
    {
        let b = *slice_index_get(bytes, i);
        data.push(b);
        proof {
            assert(old(data)@ + bytes@.subrange(0, i as int) + seq![bytes@[i as int]] =~= old(
                data,
            )@ + bytes@.subrange(0, i as int + 1));
        }
        i += 1;
    }
    proof {
        assert(old(data)@ + bytes@.subrange(0, bytes@.len() as int) =~= old(data)@ + bytes@);
    }
}

/// Byte-for-byte comparison of two slices.
fn bytes_equal(a: &[u8], b: &[u8]) -> (r: bool)
    ensures
        r == (a@ == b@),
{
    if a.len() != b.len() {
        return false;
    }
    let mut i: usize = 0;
    while i < a.len()
        invariant
            a@.len() == b@.len(),
            0 <= i <= a@.len(),
            forall|j: int| 0 <= j < i ==> a@[j] == b@[j],
        decreases a@.len() - i,
    {
        if *slice_index_get(a, i) != *slice_index_get(b, i) {
            return false;
        }
        i += 1;
    }
    proof {
        assert(a@ =~= b@);
    }
    true
}

} // verus!
