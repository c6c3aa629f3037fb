//! A table: a registry of heterogeneously-typed columns.

use vstd::prelude::*;

use crate::categorical::CategoricalArray;
use crate::int8::Int8Column;

verus! {

/// The closed set of column kinds a table can hold, each variant carrying
/// its concrete column: the dtype tag lives only at this boundary.
pub enum ColumnData {
    /// A fixed-length numeric column masked by a validity bitmap.
    NumericMasked(Int8Column),
    /// A dictionary-encoded variable-length byte column.
    DictionaryEncoded(CategoricalArray),
}

/// A collection of named columns.
pub struct DataFrame {
    column_names: Vec<String>,
    columns: Vec<ColumnData>,
}

impl DataFrame {
    /// The columns held, in insertion order.
    pub closed spec fn columns_seq(&self) -> Seq<ColumnData> {
        self.columns@
    }

    /// The column names held.
    pub closed spec fn names_seq(&self) -> Seq<String> {
        self.column_names@
    }

    pub fn new() -> (r: Self)
        ensures
            r.columns_seq() == Seq::<ColumnData>::empty(),
            r.names_seq() == Seq::<String>::empty(),
    {
        DataFrame { column_names: Vec::new(), columns: Vec::new() }
    }

    /// Appends a column to the registry.
    pub fn add_column(&mut self, column: ColumnData)
        ensures
            final(self).columns_seq() == old(self).columns_seq().push(column),
            final(self).names_seq() == old(self).names_seq(),
    {
        self.columns.push(column);
    }
}

} // verus!
