use r_jq::{range, range_type, Range, RangeType, Value};

fn make_array(string: &str) -> Vec<Value> {
    let json: serde_json::Value = serde_json::from_str(string).expect("Failed to parse json");
    json.as_array()
        .unwrap()
        .iter()
        .map(|v| Value::String(v.as_str().unwrap().to_string()))
        .collect()
}

const DIGITS: &str = r#"["0", "1", "2", "3", "4", "5", "6", "7", "8", "9"]"#;

#[test]
fn range_type_test_start_end() {
    let array = make_array(DIGITS);
    let len = array.len() as isize;
    let result = range_type::from_range(&array, &RangeType::new()).expect("Failed");
    assert_eq!(&result, &array);
    let result = range_type::from_range(&array, &RangeType::from_start(0)).expect("Failed");
    assert_eq!(&result, &array);
    let result = range_type::from_range(&array, &RangeType::from_end(len)).expect("Failed");
    assert_eq!(&result, &array);
    let result = range_type::from_range(&array, &RangeType::from_both(0, len)).expect("Failed");
    assert_eq!(&result, &array);
    let result = range_type::from_range(&array, &RangeType::from_both(0, 1)).expect("Failed");
    assert_eq!(&result, &make_array(r#"["0"]"#));
}

#[test]
fn range_type_test_start_offset() {
    let array = make_array(DIGITS);
    let result = range_type::from_range(&array, &RangeType::from_start(-1)).expect("Failed");
    assert_eq!(&result, &make_array(r#"["9"]"#));
}

#[test]
fn range_type_test_end_offset() {
    let array = make_array(DIGITS);
    let result = range_type::from_range(&array, &RangeType::from_end(-1)).expect("Failed");
    assert_eq!(&result, &make_array(r#"["0", "1", "2", "3", "4", "5", "6", "7", "8"]"#));
}

#[test]
fn range_type_test_slice() {
    let array = make_array(DIGITS);
    let result = range_type::from_range(&array, &RangeType::from_both(0, 1)).expect("Oops");
    assert_eq!(&result, &make_array(r#"["0"]"#));
    let result = range_type::from_range(&array, &RangeType::from_both(0, 0)).expect("Failed");
    assert!(result.is_empty());
}

#[test]
fn range_type_test_out_of_bounds() {
    let array = make_array(DIGITS);
    let result = range_type::from_range(&array, &RangeType::from_start(array.len() as isize)).expect("Failed");
    assert!(result.is_empty());
    let result = range_type::from_range(&array, &RangeType::from_end(array.len() as isize + 1)).expect("Failed");
    assert_eq!(&result, &array);
    let result = range_type::from_range(&array, &RangeType::from_both(9, array.len() as isize + 1)).expect("Failed");
    assert_eq!(&result, &make_array(r#"["9"]"#));
}

#[test]
fn range_test_start_end() {
    let array = make_array(DIGITS);
    let len = array.len() as isize;
    let result = range::from_range(&array, &Range::new()).expect("Failed");
    assert_eq!(&result, &array);
    let result = range::from_range(&array, &Range::from_start(0)).expect("Failed");
    assert_eq!(&result, &array);
    let result = range::from_range(&array, &Range::from_end(len)).expect("Failed");
    assert_eq!(&result, &array);
    let result = range::from_range(&array, &Range::from_both(0, len)).expect("Failed");
    assert_eq!(&result, &array);
    let result = range::from_range(&array, &Range::from_both(0, 1)).expect("Failed");
    assert_eq!(&result, &make_array(r#"["0"]"#));
}

#[test]
fn range_test_start_offset() {
    let array = make_array(DIGITS);
    let result = range::from_range(&array, &Range::from_start(-1)).expect("Failed");
    assert_eq!(&result, &make_array(r#"["9"]"#));
}

#[test]
fn range_test_end_offset() {
    let array = make_array(DIGITS);
    let result = range::from_range(&array, &Range::from_end(-1)).expect("Failed");
    assert_eq!(&result, &make_array(r#"["0", "1", "2", "3", "4", "5", "6", "7", "8"]"#));
}

#[test]
fn range_test_slice() {
    let array = make_array(DIGITS);
    let result = range::from_range(&array, &Range::from_both(0, 1)).expect("Oops");
    assert_eq!(&result, &make_array(r#"["0"]"#));
    let result = range::from_range(&array, &Range::from_both(0, 0)).expect("Failed");
    assert!(result.is_empty());
}

#[test]
fn range_test_out_of_bounds() {
    let array = make_array(DIGITS);
    let result = range::from_range(&array, &Range::from_start(array.len() as isize)).expect("Failed");
    assert!(result.is_empty());
    let result = range::from_range(&array, &Range::from_end(array.len() as isize + 1)).expect("Failed");
    assert_eq!(&result, &array);
    let result = range::from_range(&array, &Range::from_both(9, array.len() as isize + 1)).expect("Failed");
    assert_eq!(&result, &make_array(r#"["9"]"#));
}
