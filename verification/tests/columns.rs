use bit_vec::BitVec;

use llamas::column::{DataType, DataTypeMut, Numeric};
use llamas::int8::Int8Column;
use llamas::Error;

#[test]
fn int_impl_column_for_int8() {
    let mut col = Int8Column::new(vec![1, 2, 3, 4, 5, 6], BitVec::from_elem(6, true)).unwrap();
    col.apply(|x| x * x);
    let res = vec![1, 4, 9, 16, 25, 36];
    assert_eq!(col.raw_values(), &res);
}

#[test]
fn int_impl_numeric_column_for_int8() {
    let col = &Int8Column::new(vec![1, 2, 3, 4, 5, 6], BitVec::from_elem(6, true)).unwrap();
    let sum = col.sum();
    assert_eq!(sum, 21);
}

#[test]
fn int_int8_column_null_test() {
    let mut mask = BitVec::from_elem(6, true);
    mask.set(2, false);
    mask.set(4, false);
    let col = &Int8Column::new(vec![1, 2, 3, 4, 5, 6], mask).unwrap();
    let sum = col.sum();
    assert_eq!(sum, 13);
}

#[test]
fn int_from_into_int8_column() {
    let from_vec_i8 = Int8Column::from(vec![1, 3, 5, 7, 9]);
    assert_eq!(
        from_vec_i8,
        Int8Column::new(vec![1, 3, 5, 7, 9], BitVec::from_elem(5, true)).unwrap()
    );
    let from_vec_option_i8 = Int8Column::from(vec![Some(1), None, Some(5), None, None]);
    let res_values = vec![1, 0, 5, 0, 0];
    let mut res_mask = BitVec::from_elem(5, false);
    res_mask.set(0, true);
    res_mask.set(2, true);
    assert_eq!(from_vec_option_i8, Int8Column::new(res_values, res_mask).unwrap());
}

#[test]
fn scenario_masked_column() {
    let mut mask = BitVec::from_elem(6, true);
    mask.set(2, false);
    mask.set(4, false);
    let mut col = Int8Column::new(vec![1, 2, 3, 4, 5, 6], mask).unwrap();
    assert_eq!(col.sum(), 13);
    col.apply(|x| x * x);
    // the masked positions keep their placeholders bit for bit
    assert_eq!(col.raw_values(), &vec![1, 4, 3, 16, 5, 36]);
}

#[test]
fn int8_column_length_mismatch() {
    let r = Int8Column::new(vec![1, 2], BitVec::from_elem(3, true));
    assert_eq!(r, Err(Error::LengthMismatch));
}

#[test]
fn int8_get_and_series() {
    let mut mask = BitVec::from_elem(3, true);
    mask.set(1, false);
    let col = Int8Column::new(vec![10, 0, 30], mask).unwrap();
    assert_eq!(col.get(0), Some(Some(&10)));
    assert_eq!(col.get(1), Some(None));
    assert_eq!(col.get(2), Some(Some(&30)));
    assert_eq!(col.get(3), None);

    let mut series = col.values();
    assert_eq!(series.next(), Some(Some(&10)));
    assert_eq!(series.next(), Some(None));
    assert_eq!(series.next(), Some(Some(&30)));
    assert_eq!(series.next(), None);
}

#[test]
fn apply_fans_out_above_threshold() {
    // Enough elements that the masked transform runs on the parallel path.
    let count = 4096;
    let mut values: Vec<i8> = Vec::new();
    let mut mask = BitVec::from_elem(count, true);
    for i in 0..count {
        values.push((i % 11) as i8);
        if i % 3 == 0 {
            mask.set(i, false);
        }
    }
    let mut col = Int8Column::new(values.clone(), mask).unwrap();
    col.apply(|x| x + 1);
    for i in 0..count {
        let expected = if i % 3 == 0 { values[i] } else { values[i] + 1 };
        assert_eq!(col.raw_values()[i], expected);
    }
}

#[test]
fn sequential_and_parallel_apply_agree() {
    // The same masked transform below and above the fan-out threshold gives
    // the same result for the same prefix.
    let small = 64;
    let large = 4096;
    let mut small_col = Int8Column::from((0..small).map(|i| (i % 9) as i8).collect::<Vec<i8>>());
    let mut large_col = Int8Column::from((0..large).map(|i| (i % 9) as i8).collect::<Vec<i8>>());
    small_col.apply(|x| x * 2);
    large_col.apply(|x| x * 2);
    assert_eq!(&small_col.raw_values()[..small], &large_col.raw_values()[..small]);
}
