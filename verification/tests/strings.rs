use llamas::string_column::StringColumn;

#[test]
fn string_initial_and_insert() {
    let mut sa = StringColumn::new();
    sa.push("one");
    sa.push("two");
    sa.push("three");
    sa.push("one");
    assert_eq!(sa.get(0), Some("one"));
    assert_eq!(sa.get(3), Some("one"));
    assert_eq!(sa.get(1), Some("two"));
    assert_eq!(sa.get(2), Some("three"));
    assert_eq!(sa.get(4), None);
}

#[test]
fn pop() {
    let mut sa = StringColumn::new();
    sa.push("one");
    sa.push("two");
    sa.push("three");
    sa.push("one");
    sa.push("five");
}

#[test]
fn string_contains_and_empty() {
    let mut sa = StringColumn::new();
    assert!(sa.is_empty());
    sa.push("alpha");
    sa.push("beta");
    assert!(!sa.is_empty());
    assert!(sa.contains("alpha"));
    assert!(sa.contains("beta"));
    assert!(!sa.contains("gamma"));
    assert!(!sa.contains("alph"));
}

#[test]
fn null_reads_as_empty_placeholder() {
    let mut sa = StringColumn::new();
    sa.push("");
    sa.push_null();
    sa.push("x");
    // the explicit empty string and the null share one dictionary slot;
    // only the column's own bitmap tells them apart
    assert_eq!(sa.get(0), Some(""));
    assert_eq!(sa.get(1), Some(""));
    assert_eq!(sa.get(2), Some("x"));
    assert_eq!(sa.get(3), None);
}

#[test]
fn string_round_trip_multibyte() {
    let mut sa = StringColumn::new();
    sa.push("naïve");
    sa.push("日本語");
    assert_eq!(sa.get(0), Some("naïve"));
    assert_eq!(sa.get(1), Some("日本語"));
    assert!(sa.contains("日本語"));
}
