//! Data-parallel fan-out for independent per-element updates.
//!
//! The compaction shifts of the dictionary array and the masked transform of
//! a numeric column touch disjoint elements, so they may run fanned out
//! across tasks. Each operation here has one sequential path, verified, and
//! one parallel path over rayon with the same contract, used only above a
//! size threshold; by their shared contract the two paths produce identical
//! results.

use vstd::prelude::*;

use rayon::iter::IndexedParallelIterator;
use rayon::iter::IntoParallelRefIterator;
use rayon::iter::IntoParallelRefMutIterator;
use rayon::iter::ParallelIterator;

verus! {

/// Smallest number of elements for which the work is fanned out.
pub const PAR_THRESHOLD: usize = 1024;

/// One element of an offset shift: the offset moved down by `delta`.
fn shifted_down(x: usize, delta: usize) -> (r: usize)
    requires
        delta <= x,
    ensures
        r == x - delta,
{
    x - delta
}

/// One element of a reindexing: slot identifiers above the removed slot
/// move down by one, the rest stay.
fn reindexed(p: usize, removed: usize) -> (r: usize)
    ensures
        r == reindexed_spec(p, removed),
{
    if p > removed {
        p - 1
    } else {
        p
    }
}

/// What `reindexed` returns.
pub open spec fn reindexed_spec(p: usize, removed: usize) -> usize {
    if p > removed {
        (p - 1) as usize
    } else {
        p
    }
}

/// Moves every element at or after `start` down by `delta`, leaving the
/// prefix untouched.
pub fn shift_tail_down(v: &mut Vec<usize>, start: usize, delta: usize)
    requires
        start <= old(v)@.len(),
        forall|j: int| start <= j < old(v)@.len() ==> delta <= #[trigger] old(v)@[j],
    ensures
        final(v)@.len() == old(v)@.len(),
        forall|j: int| 0 <= j < start ==> final(v)@[j] == old(v)@[j],
        forall|j: int|
            start <= j < old(v)@.len() ==> #[trigger] final(v)@[j] == old(v)@[j] - delta,
{
    if v.len() - start >= PAR_THRESHOLD {
        par_shift_tail_down(v, start, delta);
    } else {
        let mut j = start;
        while j < v.len()
            invariant
                start <= j <= v@.len(),
                v@.len() == old(v)@.len(),
                forall|k: int| start <= k < old(v)@.len() ==> delta <= #[trigger] old(v)@[k],
                forall|k: int| 0 <= k < start ==> v@[k] == old(v)@[k],
                forall|k: int| start <= k < j ==> #[trigger] v@[k] == old(v)@[k] - delta,
                forall|k: int| j <= k < v@.len() ==> #[trigger] v@[k] == old(v)@[k],
            decreases v@.len() - j,
        {
            let moved = shifted_down(v[j], delta);
            v.set(j, moved);
            j += 1;
        }
    }
}

/// Relies on rayon's `par_iter_mut` and `for_each`: stores
/// `shifted_down(x, delta)` into every element of the tail, each element
/// visited exactly once.
#[verifier::external_body]
fn par_shift_tail_down(v: &mut Vec<usize>, start: usize, delta: usize)
    requires
        start <= old(v)@.len(),
        forall|j: int| start <= j < old(v)@.len() ==> delta <= #[trigger] old(v)@[j],
    ensures
        final(v)@.len() == old(v)@.len(),
        forall|j: int| 0 <= j < start ==> final(v)@[j] == old(v)@[j],
        forall|j: int|
            start <= j < old(v)@.len() ==> #[trigger] final(v)@[j] == old(v)@[j] - delta,
{
    v[start..].par_iter_mut().for_each(|x| *x = shifted_down(*x, delta));
}

/// Rewrites every slot identifier after a slot removal: identifiers above
/// `removed` move down by one, the rest stay.
pub fn reindex_after(v: &mut Vec<usize>, removed: usize)
    ensures
        final(v)@.len() == old(v)@.len(),
        forall|j: int|
            0 <= j < old(v)@.len() ==> #[trigger] final(v)@[j] == reindexed_spec(
                old(v)@[j],
                removed,
            ),
{
    if v.len() >= PAR_THRESHOLD {
        par_reindex_after(v, removed);
    } else {
        let mut j: usize = 0;
        while j < v.len()
            invariant
                0 <= j <= v@.len(),
                v@.len() == old(v)@.len(),
                forall|k: int|
                    0 <= k < j ==> #[trigger] v@[k] == reindexed_spec(old(v)@[k], removed),
                forall|k: int| j <= k < v@.len() ==> #[trigger] v@[k] == old(v)@[k],
            decreases v@.len() - j,
        {
            let moved = reindexed(v[j], removed);
            v.set(j, moved);
            j += 1;
        }
    }
}

/// Relies on rayon's `par_iter_mut` and `for_each`: stores
/// `reindexed(p, removed)` into every element, each element visited exactly
/// once.
#[verifier::external_body]
fn par_reindex_after(v: &mut Vec<usize>, removed: usize)
    ensures
        final(v)@.len() == old(v)@.len(),
        forall|j: int|
            0 <= j < old(v)@.len() ==> #[trigger] final(v)@[j] == reindexed_spec(
                old(v)@[j],
                removed,
            ),
{
    v.par_iter_mut().for_each(|p| *p = reindexed(*p, removed));
}

/// Replaces each element whose mask bit is true with the transform of that
/// element; elements under a false bit are left bit-for-bit unchanged and
/// the transform is never invoked on them.
pub fn apply_masked<F: Fn(i8) -> i8 + Sync>(values: &mut Vec<i8>, mask: &Vec<bool>, f: F)
    requires
        old(values)@.len() == mask@.len(),
        forall|j: int|
            0 <= j < mask@.len() && mask@[j] ==> call_requires(f, (#[trigger] old(values)@[j],)),
    ensures
        final(values)@.len() == old(values)@.len(),
        forall|j: int|
            0 <= j < mask@.len() ==> (if mask@[j] {
                call_ensures(f, (old(values)@[j],), #[trigger] final(values)@[j])
            } else {
                final(values)@[j] == old(values)@[j]
            }),
{
    if values.len() >= PAR_THRESHOLD {
        par_apply_masked(values, mask, f);
    } else {
        let mut j: usize = 0;
        while j < values.len()
            invariant
                values@.len() == old(values)@.len(),
                values@.len() == mask@.len(),
                0 <= j <= values@.len(),
                forall|k: int|
                    0 <= k < mask@.len() && mask@[k] ==> call_requires(
                        f,
                        (#[trigger] old(values)@[k],),
                    ),
                forall|k: int|
                    0 <= k < j ==> (if mask@[k] {
                        call_ensures(f, (old(values)@[k],), #[trigger] values@[k])
                    } else {
                        values@[k] == old(values)@[k]
                    }),
                forall|k: int| j <= k < values@.len() ==> #[trigger] values@[k] == old(values)@[k],
            decreases values@.len() - j,
        {
            if mask[j] {
                let transformed = f(values[j]);
                values.set(j, transformed);
            }
            j += 1;
        }
    }
}

/// Relies on rayon's `par_iter_mut`, `zip`, `filter` and `for_each`: stores
/// `f(x)` into every element whose mask bit is true, each exactly once, and
/// touches no other element.
#[verifier::external_body]
fn par_apply_masked<F: Fn(i8) -> i8 + Sync>(values: &mut Vec<i8>, mask: &Vec<bool>, f: F)
    requires
        old(values)@.len() == mask@.len(),
        forall|j: int|
            0 <= j < mask@.len() && mask@[j] ==> call_requires(f, (#[trigger] old(values)@[j],)),
    ensures
        final(values)@.len() == old(values)@.len(),
        forall|j: int|
            0 <= j < mask@.len() ==> (if mask@[j] {
                call_ensures(f, (old(values)@[j],), #[trigger] final(values)@[j])
            } else {
                final(values)@[j] == old(values)@[j]
            }),
{
    values.par_iter_mut().zip(mask.par_iter()).filter(|t| *t.1).for_each(|(x, _)| *x = f(*x));
}

} // verus!
