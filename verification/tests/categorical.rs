use llamas::categorical::CategoricalArray;
use llamas::Error;

#[test]
fn lib_initial_and_insert() {
    let mut sa = CategoricalArray::new();
    sa.push(b"one");
    sa.push(b"two");
    sa.push(b"three");
    sa.push(b"one");
    assert_eq!(sa.get(0), Some(&b"one"[..]));
    assert_eq!(sa.get(3), Some(&b"one"[..]));
    assert_eq!(sa.get(1), Some(&b"two"[..]));
    assert_eq!(sa.get(2), Some(&b"three"[..]));
    assert_eq!(sa.get(4), None);
    assert_eq!(sa.len(), 4);

    // insert middle
    sa.insert(1, b"ten").unwrap();
    // insert end
    sa.insert(5, b"twenty").unwrap();
    assert_eq!(sa.get(1), Some(&b"ten"[..]));
    assert_eq!(sa.get(5), Some(&b"twenty"[..]));
    assert_eq!(sa.get(6), None);

    // insert front
    sa.insert(0, b"test").unwrap();
    assert_eq!(sa.get(0), Some(&b"test"[..]));
    assert_eq!(sa.get(1), Some(&b"one"[..]));
    assert_eq!(sa.get(2), Some(&b"ten"[..]));
    assert_eq!(sa.get(3), Some(&b"two"[..]));
    assert_eq!(sa.get(4), Some(&b"three"[..]));
    assert_eq!(sa.get(5), Some(&b"one"[..]));
    assert_eq!(sa.get(6), Some(&b"twenty"[..]));
    assert_eq!(sa.get(7), None);
    assert_eq!(sa.len(), 7);
}

#[test]
fn insert_out_of_range() {
    let mut sa = CategoricalArray::new();
    sa.push(b"one");
    assert_eq!(sa.insert(5, b"twenty"), Err(Error::OutOfRange));
}

#[test]
fn remove() {
    let mut sa = CategoricalArray::new();
    sa.push(b"one");
    sa.push(b"two");
    sa.push(b"three");
    sa.push(b"one");
    sa.push(b"five");

    // removing the last of a value
    let removed = sa.remove(1).unwrap();
    assert_eq!(removed, b"two".to_vec());
    assert_eq!(sa.get(0), Some(&b"one"[..]));
    assert_eq!(sa.get(1), Some(&b"three"[..]));
    assert_eq!(sa.get(2), Some(&b"one"[..]));
    assert_eq!(sa.get(3), Some(&b"five"[..]));

    // removing a value which still exists
    // at another index
    let removed = sa.remove(2).unwrap();
    assert_eq!(removed, b"one".to_vec());
    assert_eq!(sa.get(0), Some(&b"one"[..]));
    assert_eq!(sa.get(1), Some(&b"three"[..]));
    assert_eq!(sa.get(2), Some(&b"five"[..]));

    // removing first
    let removed = sa.remove(0).unwrap();
    assert_eq!(removed, b"one".to_vec());
    assert_eq!(sa.get(0), Some(&b"three"[..]));
    assert_eq!(sa.get(1), Some(&b"five"[..]));

    // removing last
    let removed = sa.remove(1).unwrap();
    assert_eq!(removed, b"five".to_vec());
    assert_eq!(sa.get(0), Some(&b"three"[..]));

    // removing very last
    let removed = sa.remove(0).unwrap();
    assert_eq!(removed, b"three".to_vec());
    assert!(sa.is_empty());
    assert!(sa.index_values().is_empty());
    assert!(sa.offset_values().len() == 1);
    assert!(sa.buffer_bytes().is_empty());
}

#[test]
fn scenario_shared_storage() {
    let mut sa = CategoricalArray::new();
    sa.push(b"one");
    sa.push(b"two");
    sa.push(b"three");
    sa.push(b"one");
    assert_eq!(sa.len(), 4);
    assert_eq!(sa.buffer_bytes(), b"onetwothree");
    assert_eq!(sa.buffer_bytes().len(), 11);
    assert_eq!(sa.offset_values(), &[0, 3, 6, 11]);
    assert_eq!(sa.index_values(), &[0, 1, 2, 0]);
    assert_eq!(sa.get(0), Some(&b"one"[..]));
    assert_eq!(sa.get(3), Some(&b"one"[..]));
}

#[test]
fn scenario_compaction() {
    let mut sa = CategoricalArray::new();
    sa.push(b"one");
    sa.push(b"two");
    sa.push(b"three");
    sa.push(b"one");
    let removed = sa.remove(1).unwrap();
    assert_eq!(removed, b"two".to_vec());
    assert_eq!(sa.buffer_bytes(), b"onethree");
    assert_eq!(sa.offset_values(), &[0, 3, 8]);
    assert_eq!(sa.index_values(), &[0, 1, 0]);
    assert_eq!(sa.get(0), Some(&b"one"[..]));
    assert_eq!(sa.get(1), Some(&b"three"[..]));
    assert_eq!(sa.get(2), Some(&b"one"[..]));
}

#[test]
fn dedup_never_grows_buffer() {
    let mut sa = CategoricalArray::new();
    sa.push(b"one");
    let before = sa.buffer_bytes().to_vec();
    sa.push(b"one");
    assert_eq!(sa.buffer_bytes(), before.as_slice());
    assert_eq!(sa.index_values(), &[0, 0]);
    assert!(sa.contains(b"one"));
    assert!(!sa.contains(b"on"));
    assert!(!sa.contains(b"two"));
}

#[test]
fn rejected_operations_leave_state_unchanged() {
    let mut sa = CategoricalArray::new();
    sa.push(b"one");
    sa.push(b"two");
    let buffer = sa.buffer_bytes().to_vec();
    let offsets = sa.offset_values().to_vec();
    let indices = sa.index_values().to_vec();

    assert_eq!(sa.get(2), None);
    assert_eq!(sa.insert(3, b"three"), Err(Error::OutOfRange));
    assert_eq!(sa.remove(2), Err(Error::OutOfRange));
    assert_eq!(sa.buffer_bytes(), buffer.as_slice());
    assert_eq!(sa.offset_values(), offsets.as_slice());
    assert_eq!(sa.index_values(), indices.as_slice());
}

#[test]
fn insert_at_len_equals_push() {
    let mut a = CategoricalArray::new();
    a.push(b"x");
    a.push(b"y");
    a.insert(2, b"z").unwrap();
    let mut b = CategoricalArray::new();
    b.push(b"x");
    b.push(b"y");
    b.push(b"z");
    assert_eq!(a.buffer_bytes(), b.buffer_bytes());
    assert_eq!(a.offset_values(), b.offset_values());
    assert_eq!(a.index_values(), b.index_values());
}

#[test]
fn insert_at_zero_shifts_rows_up() {
    let mut sa = CategoricalArray::new();
    sa.push(b"one");
    sa.push(b"two");
    sa.insert(0, b"zero").unwrap();
    assert_eq!(sa.get(0), Some(&b"zero"[..]));
    assert_eq!(sa.get(1), Some(&b"one"[..]));
    assert_eq!(sa.get(2), Some(&b"two"[..]));
    assert_eq!(sa.len(), 3);
}

#[test]
fn empty_values_collapse_to_one_slot() {
    let mut sa = CategoricalArray::new();
    sa.push(b"");
    sa.push(b"");
    assert_eq!(sa.len(), 2);
    assert_eq!(sa.offset_values(), &[0, 0]);
    assert_eq!(sa.index_values(), &[0, 0]);
    assert_eq!(sa.get(0), Some(&b""[..]));
    assert!(sa.buffer_bytes().is_empty());
}

#[test]
fn compaction_fans_out_above_threshold() {
    // Enough distinct slots that the post-compaction offset shift and
    // reindexing run on the parallel path.
    let mut sa = CategoricalArray::new();
    let count: usize = 1100;
    let mut values: Vec<Vec<u8>> = Vec::new();
    for i in 0..count {
        values.push(format!("v{:05}", i).into_bytes());
    }
    for v in &values {
        sa.push(v);
    }
    assert_eq!(sa.len(), count);
    let buffer_before = sa.buffer_bytes().len();
    // Remove the first row: its slot's 6 bytes leave the buffer and every
    // other offset and every index shifts.
    let removed = sa.remove(0).unwrap();
    assert_eq!(removed, values[0]);
    assert_eq!(sa.len(), count - 1);
    assert_eq!(sa.buffer_bytes().len(), buffer_before - values[0].len());
    for i in 1..count {
        assert_eq!(sa.get(i - 1), Some(values[i].as_slice()));
    }
}
