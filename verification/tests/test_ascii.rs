use shell_quote::ascii::Char;

#[test]
fn test_code() {
    for ch in u8::MIN..=u8::MAX {
        let char = Char::from(ch);
        assert_eq!(ch, char.code());
    }
}

#[test]
fn test_is_inert_set() {
    // Exactly the letters, digits, and `, . / _ -` are inert.
    for ch in u8::MIN..=u8::MAX {
        let expected = ch.is_ascii_alphanumeric() || b",./_-".contains(&ch);
        assert_eq!(Char::from(ch).is_inert(), expected, "byte {ch:#04X}");
    }
}
