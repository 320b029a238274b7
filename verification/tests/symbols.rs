use expr_codec::{is_operand, is_operator};

#[test]
fn operands_are_the_lowercase_letters() {
    for c in 0u8..=255 {
        assert_eq!(is_operand(c), c.is_ascii_lowercase());
    }
    assert!(is_operand(b'a'));
    assert!(is_operand(b'z'));
    assert!(!is_operand(b'`'));
    assert!(!is_operand(b'{'));
    assert!(!is_operand(b'A'));
}

#[test]
fn operators_are_the_uppercase_letters() {
    for c in 0u8..=255 {
        assert_eq!(is_operator(c), c.is_ascii_uppercase());
    }
    assert!(is_operator(b'A'));
    assert!(is_operator(b'Z'));
    assert!(!is_operator(b'@'));
    assert!(!is_operator(b'['));
    assert!(!is_operator(b'a'));
}

#[test]
fn no_byte_is_both() {
    for c in 0u8..=255 {
        assert!(!(is_operand(c) && is_operator(c)));
    }
}
