use luavm::text::int_to_text;

#[test]
fn integers_are_written_in_decimal() {
    assert_eq!(int_to_text(0), b"0".to_vec());
    assert_eq!(int_to_text(7), b"7".to_vec());
    assert_eq!(int_to_text(-45), b"-45".to_vec());
    assert_eq!(int_to_text(1234567890), b"1234567890".to_vec());
    assert_eq!(int_to_text(i64::MAX), b"9223372036854775807".to_vec());
    assert_eq!(int_to_text(i64::MIN), b"-9223372036854775808".to_vec());
}
