use shell_quote::util::u8_to_hex;
use shell_quote::util::u8_to_hex_escape;
use shell_quote::util::u8_to_hex_escape_uppercase_x;

#[test]
fn test_u8_to_hex() {
    for ch in u8::MIN..=u8::MAX {
        let expected = format!("{ch:02X}");
        let observed = u8_to_hex(ch);
        let observed = std::str::from_utf8(&observed).unwrap();
        assert_eq!(observed, &expected);
    }
}

#[test]
fn util_test_u8_to_hex_escape() {
    for ch in u8::MIN..=u8::MAX {
        let expected = format!("\\x{ch:02X}");
        let observed = u8_to_hex_escape(ch);
        let observed = std::str::from_utf8(&observed).unwrap();
        assert_eq!(observed, &expected);
    }
}

#[test]
fn bash_test_u8_to_hex_escape() {
    for ch in u8::MIN..=u8::MAX {
        let expected = format!("\\x{ch:02X}");
        let observed = u8_to_hex_escape(ch);
        let observed = std::str::from_utf8(&observed).unwrap();
        assert_eq!(observed, &expected);
    }
}

#[test]
fn test_u8_to_hex_escape_uppercase_x() {
    for ch in u8::MIN..=u8::MAX {
        let expected = format!("\\X{ch:02X}");
        let observed = u8_to_hex_escape_uppercase_x(ch);
        let observed = std::str::from_utf8(&observed).unwrap();
        assert_eq!(observed, &expected);
    }
}
