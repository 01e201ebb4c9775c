use capture::order::{place_for, text_at_most};
use capture::text::{
    decimal, hexadecimal, join_with_commas, joined, same_text, signed_decimal, trim,
};

#[test]
fn numbers_are_written_out() {
    assert_eq!(decimal(0), "0");
    assert_eq!(decimal(1_234_567_890), "1234567890");
    assert_eq!(decimal(u64::MAX), "18446744073709551615");
    assert_eq!(hexadecimal(0), "0");
    assert_eq!(hexadecimal(0xcafe_4a11), "cafe4a11");
    assert_eq!(signed_decimal(-1), "-1");
    assert_eq!(signed_decimal(i32::MIN), "-2147483648");
    assert_eq!(signed_decimal(42), "42");
}

#[test]
fn texts_are_put_together_and_compared() {
    assert_eq!(joined("a", "b"), "ab");
    assert_eq!(join_with_commas(&vec![]), "");
    assert_eq!(
        join_with_commas(&vec!["a".to_string(), "b".to_string()]),
        "a,b"
    );
    assert_eq!(trim(" \t2\n"), "2");
    assert_eq!(trim("a b"), "a b");
    assert_eq!(trim("\n"), "");
    assert!(same_text("curl", "curl"));
    assert!(!same_text("curl", "curl "));
    assert!(text_at_most("accept", "connect"));
    assert!(text_at_most("read", "readv"));
    assert!(!text_at_most("readv", "read"));
    assert!(text_at_most("a", "a"));
}

#[test]
fn place_keeps_names_in_order() {
    let names = vec!["a".to_string(), "c".to_string()];
    assert_eq!(place_for(&names, "b"), 1);
    assert_eq!(place_for(&names, "d"), 2);
}
