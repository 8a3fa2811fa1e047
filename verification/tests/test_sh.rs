use shell_quote::Quotable;
use shell_quote::Sh;

fn quote(s: &str) -> Vec<u8> {
    Sh::quote_vec(Quotable::from_text(s))
}

#[test]
fn test_sh_test_lowercase_ascii() {
    assert_eq!(quote("abcdefghijklmnopqrstuvwxyz"), b"abcdefghijklmnopqrstuvwxyz");
}

#[test]
fn test_sh_test_uppercase_ascii() {
    assert_eq!(quote("ABCDEFGHIJKLMNOPQRSTUVWXYZ"), b"ABCDEFGHIJKLMNOPQRSTUVWXYZ");
}

#[test]
fn test_sh_test_numbers() {
    assert_eq!(quote("0123456789"), b"0123456789");
}

#[test]
fn test_sh_test_punctuation() {
    assert_eq!(quote("-_=/,.+"), b"-_'=/,.+'");
}

#[test]
fn test_sh_test_empty_string() {
    assert_eq!(quote(""), b"''");
}

#[test]
fn test_sh_test_basic_escapes() {
    assert_eq!(quote(r#"woo'wah""#), br#"woo\'wah'"'"#);
}

#[test]
fn test_sh_test_control_characters() {
    assert_eq!(quote("\x07"), b"'\x07'");
    assert_eq!(quote("\x00"), b"'\x00'");
    assert_eq!(quote("\x06"), b"'\x06'");
    assert_eq!(quote("\x7F"), b"'\x7F'");
    assert_eq!(quote("\x1B"), b"'\x1B'");
}

#[test]
fn test_quote_into_plain() {
    let mut buffer = Vec::new();
    Sh::quote_into_vec(Quotable::from_text("hello"), &mut buffer);
    assert_eq!(buffer, b"hello");
}

#[test]
fn test_quote_into_with_escapes() {
    let mut buffer = Vec::new();
    Sh::quote_into_vec(Quotable::from_text("-_=/,.+"), &mut buffer);
    assert_eq!(buffer, b"-_'=/,.+'");
}

#[test]
fn test_vec_push_quoted() {
    let mut buffer = Vec::from(*b"Hello, ");
    Sh::quote_into_vec(Quotable::from_text("World, Bob, !@#$%^&*(){}[]"), &mut buffer);
    let string = String::from_utf8(buffer).unwrap(); // -> test failures are more readable.
    assert_eq!(string, "Hello, World,' Bob, !@#$%^&*(){}[]'");
}

#[test]
fn test_sh_seed_examples() {
    assert_eq!(quote("foobar"), b"foobar");
    assert_eq!(quote("foo bar"), b"foo' bar'");
}

#[test]
fn test_sh_quote_bytes() {
    // The byte-input path. This dialect has no escape syntax for arbitrary
    // bytes: control and high bytes are reproduced verbatim inside single
    // quotes.
    assert_eq!(Sh::quote_vec(Quotable::from_bytes(b"foobar")), b"foobar");
    assert_eq!(Sh::quote_vec(Quotable::from_bytes(b"foo bar")), b"foo' bar'");
    assert_eq!(Sh::quote_vec(Quotable::from_bytes(b"\x80")), b"'\x80'");
    assert_eq!(Sh::quote_vec(Quotable::from_bytes(b"a\\b")), b"a'\\b'");
}

/// A small model of how `/bin/sh` reads back one word: enough to check,
/// without a real shell, that quoting round-trips.
fn sh_read_word(out: &[u8]) -> Option<Vec<u8>> {
    let mut result = Vec::new();
    let mut i = 0;
    let mut inside = false;
    while i < out.len() {
        if inside {
            if out[i] == b'\'' {
                inside = false;
            } else {
                result.push(out[i]);
            }
            i += 1;
        } else if out[i] == b'\'' {
            inside = true;
            i += 1;
        } else if out[i] == b'\\' {
            if i + 1 >= out.len() {
                return None;
            }
            result.push(out[i + 1]);
            i += 2;
        } else {
            result.push(out[i]);
            i += 1;
        }
    }
    if inside {
        return None;
    }
    Some(result)
}

#[test]
fn test_sh_round_trip_all_bytes() {
    let input: Vec<u8> = (u8::MIN..=u8::MAX).collect();
    let quoted = Sh::quote_vec(Quotable::from_bytes(&input));
    assert_eq!(sh_read_word(&quoted), Some(input));
    // And byte by byte.
    for b in u8::MIN..=u8::MAX {
        let quoted = Sh::quote_vec(Quotable::from_bytes(&[b]));
        assert_eq!(sh_read_word(&quoted), Some(vec![b]), "byte {b:#04X}");
    }
}

#[test]
fn test_sh_round_trip_tricky() {
    let inputs: [&[u8]; 9] =
        [b"'", b"''", b"a'b", b"'a", b"a'", b"\\'", b"'\\", b"it's here", b"foo 'bar"];
    for input in inputs {
        let quoted = Sh::quote_vec(Quotable::from_bytes(input));
        assert_eq!(sh_read_word(&quoted), Some(input.to_vec()), "input {input:?}");
    }
}
