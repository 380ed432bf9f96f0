use korangar::text::{chars_of, push_decimal, push_plus_signed_decimal, push_signed_decimal};

#[test]
fn numbers_are_written_in_decimal() {
    let mut text = String::from("n=");
    push_decimal(&mut text, 0);
    assert_eq!(text, "n=0");
    let mut text = String::new();
    push_decimal(&mut text, u64::MAX);
    assert_eq!(text, u64::MAX.to_string());
    let mut text = String::new();
    push_signed_decimal(&mut text, i64::MIN);
    assert_eq!(text, i64::MIN.to_string());
    let mut text = String::new();
    push_plus_signed_decimal(&mut text, 42);
    assert_eq!(text, "+42");
}

#[test]
fn characters_come_in_order() {
    assert_eq!(chars_of("a워b"), vec!['a', '워', 'b']);
    assert!(chars_of("").is_empty());
}
