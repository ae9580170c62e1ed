use pyo3_samples::record::RustStruct;
use pyo3_samples::text::{push_decimal, split_char};

#[test]
fn new_keeps_both_fields() {
    let r = RustStruct::new("hello".to_string(), vec![1, 2]);
    assert_eq!(r.data, "hello");
    assert_eq!(r.vector, vec![1, 2]);
}

#[test]
fn extend_vector_appends_in_order() {
    let mut r = RustStruct::new("x".to_string(), vec![1, 2]);
    r.extend_vector(vec![3, 4]);
    assert_eq!(r.vector, vec![1, 2, 3, 4]);
    assert_eq!(r.data, "x");
    r.extend_vector(vec![]);
    assert_eq!(r.vector, vec![1, 2, 3, 4]);
}

#[test]
fn extend_empty_record() {
    let mut r = RustStruct::new(String::new(), vec![]);
    r.extend_vector(vec![255, 0]);
    assert_eq!(r.vector, vec![255, 0]);
}

#[test]
fn printer_lists_text_then_numbers() {
    let r = RustStruct::new("data".to_string(), vec![7, 255, 0]);
    assert_eq!(r.printer(), vec!["data", "7", "255", "0"]);
    let r = RustStruct::new(String::new(), vec![]);
    assert_eq!(r.printer(), vec![""]);
}

#[test]
fn decimal_digits() {
    let mut s = "n=".to_string();
    push_decimal(&mut s, 0);
    assert_eq!(s, "n=0");
    let mut s = String::new();
    push_decimal(&mut s, 1234567890);
    assert_eq!(s, "1234567890");
    let mut s = String::new();
    push_decimal(&mut s, u128::MAX);
    assert_eq!(s, u128::MAX.to_string());
}

#[test]
fn split_char_pieces() {
    assert_eq!(split_char("a b", ' '), vec!["a", "b"]);
    assert_eq!(split_char("", ' '), vec![""]);
    assert_eq!(split_char(" a ", ' '), vec!["", "a", ""]);
    assert_eq!(split_char("no", ','), vec!["no"]);
}
