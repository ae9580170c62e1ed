use pyo3_samples::boundary::{guard, translate, ExceptionKind, ExceptionRecord, FailureValue};
use pyo3_samples::samples::{
    byte_list_text, count_occurences, get_fibonacci, greater_than_2, list_sum, multiply,
    panic_test, printed_word, reversed, sum_as_string,
};

fn abort(message: &str) -> ExceptionRecord {
    ExceptionRecord { kind: ExceptionKind::InternalAbort, message: message.to_string() }
}

fn domain(message: &str) -> ExceptionRecord {
    ExceptionRecord { kind: ExceptionKind::DomainError, message: message.to_string() }
}

#[test]
fn multiply_small_numbers() {
    assert_eq!(multiply(3, 4), Ok(12));
    assert_eq!(multiply(-3, 4), Ok(-12));
    assert_eq!(multiply(0, isize::MAX), Ok(0));
}

#[test]
fn multiply_overflow_aborts() {
    assert_eq!(multiply(isize::MAX, 2), Err(abort("attempt to multiply with overflow")));
    assert_eq!(multiply(isize::MIN, -1), Err(abort("attempt to multiply with overflow")));
}

#[test]
fn list_sum_adds_in_order() {
    assert_eq!(list_sum(vec![1, 2, 3]), Ok(6));
    assert_eq!(list_sum(vec![]), Ok(0));
    assert_eq!(list_sum(vec![-5, 2]), Ok(-3));
}

#[test]
fn list_sum_aborts_on_running_overflow() {
    assert_eq!(list_sum(vec![isize::MAX, 1, -1]), Err(abort("attempt to add with overflow")));
    assert_eq!(list_sum(vec![isize::MIN, -1]), Err(abort("attempt to add with overflow")));
    assert_eq!(list_sum(vec![isize::MAX, -1, 1]), Ok(isize::MAX));
}

#[test]
fn sum_as_string_writes_decimal() {
    assert_eq!(sum_as_string(2, 40), Ok("42".to_string()));
    assert_eq!(sum_as_string(0, 0), Ok("0".to_string()));
    assert_eq!(sum_as_string(usize::MAX, 0), Ok(usize::MAX.to_string()));
    assert_eq!(sum_as_string(1000, 7), Ok("1007".to_string()));
}

#[test]
fn sum_as_string_overflow_aborts() {
    assert_eq!(sum_as_string(usize::MAX, 1), Err(abort("attempt to add with overflow")));
}

#[test]
fn fibonacci_special_cases() {
    assert_eq!(get_fibonacci(1), Ok(1));
    assert_eq!(get_fibonacci(2), Ok(2));
    assert_eq!(get_fibonacci(0), Ok(0));
    assert_eq!(get_fibonacci(-7), Ok(0));
}

#[test]
fn fibonacci_values() {
    assert_eq!(get_fibonacci(3), Ok(2));
    assert_eq!(get_fibonacci(4), Ok(3));
    assert_eq!(get_fibonacci(10), Ok(55));
    assert_eq!(get_fibonacci(50), Ok(12586269025));
}

#[test]
fn fibonacci_largest_and_overflow() {
    let mut last: u128 = 0;
    let mut curr: u128 = 1;
    for _ in 1..186 {
        let next = last.checked_add(curr).unwrap();
        last = curr;
        curr = next;
    }
    assert_eq!(get_fibonacci(186), Ok(curr));
    assert_eq!(get_fibonacci(187), Err(abort("attempt to add with overflow")));
    assert_eq!(get_fibonacci(isize::MAX), Err(abort("attempt to add with overflow")));
}

#[test]
fn greater_than_2_passes_large_numbers() {
    assert_eq!(greater_than_2(3), Ok(3));
    assert_eq!(greater_than_2(100), Ok(100));
}

#[test]
fn greater_than_2_raises_domain_error() {
    let expected = domain("Error from Rust: number is less than or equal to 2");
    assert_eq!(greater_than_2(2), Err(expected.clone()));
    assert_eq!(greater_than_2(-10), Err(expected));
    let r = greater_than_2(1).unwrap_err();
    assert!(r.message.contains("number is less than or equal to 2"));
}

#[test]
fn panic_test_empty_aborts() {
    assert_eq!(
        panic_test(&[]),
        Err(abort("index out of bounds: the len is 0 but the index is 0"))
    );
}

#[test]
fn panic_test_small_first_byte_aborts() {
    assert_eq!(panic_test(&[1, 2, 3]), Err(abort("this is a fancy [1, 2, 3]")));
    assert_eq!(panic_test(&[5]), Err(abort("this is a fancy [5]")));
}

#[test]
fn panic_test_returns_comparison() {
    assert_eq!(panic_test(&[6]), Ok(true));
    assert_eq!(panic_test(&[19, 0]), Ok(true));
    assert_eq!(panic_test(&[20]), Ok(false));
    assert_eq!(panic_test(&[255, 1]), Ok(false));
}

#[test]
fn calls_go_on_after_an_abort() {
    assert!(panic_test(&[]).is_err());
    assert_eq!(multiply(3, 4), Ok(12));
    assert!(panic_test(&[0]).is_err());
    assert_eq!(list_sum(vec![1, 2, 3]), Ok(6));
}

#[test]
fn byte_list_text_formats_like_a_list() {
    assert_eq!(byte_list_text(&[]), "[]");
    assert_eq!(byte_list_text(&[0, 255, 10]), "[0, 255, 10]");
}

#[test]
fn count_occurences_counts_words() {
    assert_eq!(count_occurences("the cat. the dog\nthe end", "the"), Ok(3));
    assert_eq!(count_occurences("a cat.\nthe cat sat", "cat"), Ok(2));
    assert_eq!(count_occurences("cats catalogue", "cat"), Ok(0));
    assert_eq!(count_occurences("", "cat"), Ok(0));
}

#[test]
fn count_occurences_line_endings() {
    assert_eq!(count_occurences("a cat\r\nb cat\n", "cat"), Ok(2));
    assert_eq!(count_occurences("a cat\r", "cat"), Ok(0));
    assert_eq!(count_occurences("cat\n\ncat", "cat"), Ok(2));
}

#[test]
fn count_occurences_empty_needle() {
    assert_eq!(count_occurences("a  b", ""), Ok(1));
    assert_eq!(count_occurences("a . b", ""), Ok(1));
    assert_eq!(count_occurences("\n", ""), Ok(1));
}

#[test]
fn reversed_and_shaped_words() {
    assert_eq!(reversed("abc"), "cba");
    assert_eq!(reversed(""), "");
    assert_eq!(reversed("héllo"), "olléh");
    assert_eq!(printed_word("abc".to_string(), true, true), "CBA");
    assert_eq!(printed_word("abc".to_string(), false, true), "ABC");
    assert_eq!(printed_word("abc".to_string(), true, false), "cba");
    assert_eq!(printed_word("abc".to_string(), false, false), "abc");
    assert_eq!(printed_word("straße".to_string(), false, true), "STRASSE");
}

#[test]
fn translate_recoverable_and_fatal() {
    let r = translate(FailureValue::Recoverable("boom".to_string()));
    assert_eq!(r, domain("Error from Rust: boom"));
    let r = translate(FailureValue::Fatal("bad index".to_string()));
    assert_eq!(r, abort("bad index"));
}

#[test]
fn translate_twice_gives_the_same_record() {
    let a = translate(FailureValue::Recoverable("same".to_string()));
    let b = translate(FailureValue::Recoverable("same".to_string()));
    assert_eq!(a, b);
    assert_eq!(greater_than_2(0), greater_than_2(0));
    assert_eq!(panic_test(&[2]), panic_test(&[2]));
}

#[test]
fn guard_passes_success_through() {
    assert_eq!(guard::<u8>(Ok(7)), Ok(7));
    assert_eq!(
        guard::<u8>(Err(FailureValue::Fatal("x".to_string()))),
        Err(abort("x"))
    );
}

#[test]
fn mixed_calls_keep_their_own_outcomes() {
    let outcomes = vec![
        greater_than_2(1).map(|v| v as i128),
        multiply(6, 7).map(|v| v as i128),
        panic_test(&[3]).map(|b| b as i128),
        greater_than_2(9).map(|v| v as i128),
        get_fibonacci(200).map(|v| v as i128),
    ];
    assert_eq!(outcomes.len(), 5);
    assert_eq!(outcomes[0], Err(domain("Error from Rust: number is less than or equal to 2")));
    assert_eq!(outcomes[1], Ok(42));
    assert_eq!(outcomes[2], Err(abort("this is a fancy [3]")));
    assert_eq!(outcomes[3], Ok(9));
    assert_eq!(outcomes[4], Err(abort("attempt to add with overflow")));
}
