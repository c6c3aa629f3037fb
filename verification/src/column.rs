//! The logical interface to columns.
//!
//! A column's semantics are kept separate from its physical backing: the
//! traits here describe a column as a sequence of optional items — `None`
//! standing for a null — whatever structure stores the data underneath.

use vstd::prelude::*;

verus! {

/// A column: the logical interface to a one-dimensional collection of some
/// dtype. Physical operations live in the more specific traits below.
pub trait Column {

}

/// Everything that works directly with a column's backing data.
pub trait DataType: Sized {
    type Item;

    /// The column's own well-formedness, assumed and preserved by every
    /// operation.
    spec fn inv(&self) -> bool;

    /// The column's logical entries: one optional item per position.
    spec fn entries(&self) -> Seq<Option<Self::Item>>;

    /// The entry at `index`: nothing past the end, `Some(None)` at a null
    /// position, and a reference to the value elsewhere. Never errors and
    /// never mutates.
    fn get(&self, index: usize) -> (r: Option<Option<&Self::Item>>)
        requires
            self.inv(),
        ensures
            index < self.entries().len() ==> (match self.entries()[index as int] {
                Some(v) => (r matches Some(Some(x)) && *x == v),
                None => r == Some(None::<&Self::Item>),
            }),
            index >= self.entries().len() ==> r is None,
    ;

    /// An iterator over the entries, starting at position zero.
    fn values(&self) -> (s: Series<'_, Self>)
        ensures
            s.source() == *self,
            s.pos() == 0,
    ;
}

/// Numeric columns: a masked reduction over the valid entries.
pub trait Numeric: DataType {
    /// When the reduction is defined: for a machine-integer item every
    /// partial sum must stay in the item's range.
    spec fn sum_pre(&self) -> bool;

    /// The value the reduction returns.
    spec fn sum_spec(&self) -> Self::Item;

    /// The sum, under addition, of every entry whose validity bit is true;
    /// null positions are never read.
    fn sum(&self) -> (r: Self::Item)
        requires
            self.inv(),
            self.sum_pre(),
        ensures
            r == self.sum_spec(),
    ;
}

/// Columns supporting an in-place masked elementwise transform; separate
/// from `DataType` because it needs `&mut` access.
pub trait DataTypeMut: DataType {
    /// Replaces the value at every position whose validity bit is true with
    /// the transform of that value; positions with a false bit are left
    /// bit-for-bit unchanged and the transform is never invoked on them.
    /// The transform must be safe to call concurrently and depend only on
    /// its input: per-position updates may be fanned out across tasks.
    fn apply<F: Fn(Self::Item) -> Self::Item + Sync>(&mut self, f: F)
        requires
            old(self).inv(),
            forall|j: int|
                0 <= j < old(self).entries().len() ==> (match #[trigger] old(self).entries()[j] {
                    Some(v) => call_requires(f, (v,)),
                    None => true,
                }),
        ensures
            final(self).inv(),
            final(self).entries().len() == old(self).entries().len(),
            forall|j: int|
                0 <= j < old(self).entries().len() ==> (match #[trigger] old(self).entries()[j] {
                    Some(v) => (final(self).entries()[j] matches Some(w) && call_ensures(
                        f,
                        (v,),
                        w,
                    )),
                    None => final(self).entries()[j] is None,
                }),
    ;
}

/// An iterator over a column's entries.
pub struct Series<'a, D> {
    values: &'a D,
    index: usize,
}

impl<'a, D> Series<'a, D> {
    /// The column being iterated over.
    pub closed spec fn source(&self) -> D {
        *self.values
    }

    /// The position of the next entry to hand out.
    pub closed spec fn pos(&self) -> usize {
        self.index
    }

    pub fn new(values: &'a D) -> (s: Self)
        ensures
            s.source() == *values,
            s.pos() == 0,
    {
        Series { values, index: 0 }
    }
}

impl<'a, D: DataType> Series<'a, D> {
    /// The entry at the current position — nothing once the column is
    /// exhausted — advancing by one position either way.
    pub fn next(&mut self) -> (r: Option<Option<&'a D::Item>>)
        requires
            old(self).source().inv(),
            old(self).pos() < usize::MAX,
        ensures
            final(self).source() == old(self).source(),
            final(self).pos() == old(self).pos() + 1,
            old(self).pos() < old(self).source().entries().len() ==> (match old(
                self,
            ).source().entries()[old(self).pos() as int] {
                Some(v) => (r matches Some(Some(x)) && *x == v),
                None => r == Some(None::<&'a D::Item>),
            }),
            old(self).pos() >= old(self).source().entries().len() ==> r is None,
    {
        let res = self.values.get(self.index);
        self.index += 1;
        res
    }
}

} // verus!
