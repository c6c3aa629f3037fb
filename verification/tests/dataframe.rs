use bit_vec::BitVec;

use llamas::categorical::CategoricalArray;
use llamas::dataframe::{ColumnData, DataFrame};
use llamas::int8::Int8Column;

#[test]
fn dataframe_init() {
    let mut df = DataFrame::new();
    df.add_column(ColumnData::NumericMasked(
        Int8Column::new(Vec::new(), BitVec::new()).unwrap(),
    ));
}

#[test]
fn dataframe_holds_both_dtypes() {
    let mut df = DataFrame::new();
    df.add_column(ColumnData::NumericMasked(
        Int8Column::new(vec![1, 2], BitVec::from_elem(2, true)).unwrap(),
    ));
    let mut strings = CategoricalArray::new();
    strings.push(b"one");
    df.add_column(ColumnData::DictionaryEncoded(strings));
}
