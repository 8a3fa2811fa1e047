use shell_quote::Bash;
use shell_quote::Quotable;

fn quote(s: &str) -> Vec<u8> {
    Bash::quote_vec(Quotable::from_text(s))
}

#[test]
fn test_bash_test_lowercase_ascii() {
    assert_eq!(quote("abcdefghijklmnopqrstuvwxyz"), b"abcdefghijklmnopqrstuvwxyz");
}

#[test]
fn test_bash_test_uppercase_ascii() {
    assert_eq!(quote("ABCDEFGHIJKLMNOPQRSTUVWXYZ"), b"ABCDEFGHIJKLMNOPQRSTUVWXYZ");
}

#[test]
fn test_bash_test_numbers() {
    assert_eq!(quote("0123456789"), b"0123456789");
}

#[test]
fn test_bash_test_punctuation() {
    assert_eq!(quote("-_=/,.+"), b"$'-_=/,.+'");
    assert_eq!(quote("Hello \r\n"), b"$'Hello \\r\\n'");
}

#[test]
fn test_bash_test_empty_string() {
    assert_eq!(quote(""), b"''");
}

#[test]
fn test_bash_test_basic_escapes() {
    assert_eq!(quote(r#"woo"wah""#), br#"$'woo"wah"'"#);
}

#[test]
fn test_bash_test_control_characters() {
    assert_eq!(quote("\x00"), b"$'\\x00'");
    assert_eq!(quote("\x07"), b"$'\\a'");
    assert_eq!(quote("\x00"), b"$'\\x00'");
    assert_eq!(quote("\x06"), b"$'\\x06'");
    assert_eq!(quote("\x7F"), b"$'\\x7F'");
}

#[test]
fn test_bash_test_utf8() {
    // UTF-8 for code points U+0080 and above is included verbatim.
    assert_eq!(quote("Hello 👋"), b"$'Hello \xf0\x9f\x91\x8b'");
}

#[test]
fn test_bash_test_escape_into_plain() {
    let mut buffer = Vec::new();
    Bash::quote_into_vec(Quotable::from_text("hello"), &mut buffer);
    assert_eq!(buffer, b"hello");
}

#[test]
fn test_bash_test_escape_into_with_escapes() {
    let mut buffer = Vec::new();
    Bash::quote_into_vec(Quotable::from_text("-_=/,.+"), &mut buffer);
    assert_eq!(buffer, b"$'-_=/,.+'");
}

#[test]
fn test_vec_push_quoted_with_bash() {
    let mut buffer = Vec::from(*b"Hello, ");
    Bash::quote_into_vec(Quotable::from_text("World, Bob, !@#$%^&*(){}[]"), &mut buffer);
    let string = String::from_utf8(buffer).unwrap(); // -> test failures are more readable.
    assert_eq!(string, "Hello, $'World, Bob, !@#$%^&*(){}[]'");
}

#[test]
fn test_bash_quote_bytes() {
    // The byte-input path: the same escapes, byte by byte.
    assert_eq!(Bash::quote_vec(Quotable::from_bytes(b"foobar")), b"foobar");
    assert_eq!(Bash::quote_vec(Quotable::from_bytes(b"foo bar")), b"$'foo bar'");
    assert_eq!(Bash::quote_vec(Quotable::from_bytes(b"\x80\xFF")), b"$'\\x80\\xFF'");
    assert_eq!(Bash::quote_vec(Quotable::from_bytes(b"a\\b")), b"$'a\\\\b'");
    assert_eq!(Bash::quote_vec(Quotable::from_bytes(b"it's")), b"$'it\\'s'");
}

#[test]
fn test_bash_seed_examples() {
    assert_eq!(quote("foobar"), b"foobar");
    assert_eq!(quote("foo bar"), b"$'foo bar'");
    assert_eq!(quote("\x07"), b"$'\\a'");
    assert_eq!(quote("\x00"), b"$'\\x00'");
}

/// A small model of how Bash reads back one `$'...'` word (or a bare word):
/// enough to check, without a real shell, that quoting round-trips.
fn bash_read_word(out: &[u8]) -> Option<Vec<u8>> {
    let mut result = Vec::new();
    let mut i = 0;
    while i < out.len() {
        if i + 1 < out.len() && out[i] == b'$' && out[i + 1] == b'\'' {
            // ANSI-C quoted region.
            i += 2;
            loop {
                if i >= out.len() {
                    return None;
                }
                match out[i] {
                    b'\'' => {
                        i += 1;
                        break;
                    }
                    b'\\' => {
                        if i + 1 >= out.len() {
                            return None;
                        }
                        match out[i + 1] {
                            b'a' => result.push(0x07),
                            b'b' => result.push(0x08),
                            b'e' => result.push(0x1B),
                            b'f' => result.push(0x0C),
                            b'n' => result.push(0x0A),
                            b'r' => result.push(0x0D),
                            b't' => result.push(0x09),
                            b'v' => result.push(0x0B),
                            b'\\' => result.push(b'\\'),
                            b'\'' => result.push(b'\''),
                            b'x' => {
                                let h1 = (out.get(i + 2)?.to_owned() as char).to_digit(16)?;
                                let h2 = (out.get(i + 3)?.to_owned() as char).to_digit(16)?;
                                result.push((h1 * 16 + h2) as u8);
                                i += 2;
                            }
                            _ => return None,
                        }
                        i += 2;
                    }
                    b => {
                        result.push(b);
                        i += 1;
                    }
                }
            }
        } else if out[i] == b'\'' {
            i += 1;
            loop {
                if i >= out.len() {
                    return None;
                }
                if out[i] == b'\'' {
                    i += 1;
                    break;
                }
                result.push(out[i]);
                i += 1;
            }
        } else if out[i] == b'\\' {
            if i + 1 >= out.len() {
                return None;
            }
            result.push(out[i + 1]);
            i += 2;
        } else {
            result.push(out[i]);
            i += 1;
        }
    }
    Some(result)
}

#[test]
fn test_bash_round_trip_all_bytes() {
    let input: Vec<u8> = (u8::MIN..=u8::MAX).collect();
    let quoted = Bash::quote_vec(Quotable::from_bytes(&input));
    assert_eq!(bash_read_word(&quoted), Some(input));
    // And byte by byte.
    for b in u8::MIN..=u8::MAX {
        let quoted = Bash::quote_vec(Quotable::from_bytes(&[b]));
        assert_eq!(bash_read_word(&quoted), Some(vec![b]), "byte {b:#04X}");
    }
}

#[test]
fn test_bash_round_trip_tricky() {
    let inputs: [&[u8]; 9] =
        [b"'", b"''", b"a'b", b"'a", b"a'", b"\\'", b"'\\", b"it's here", b"foo 'bar"];
    for input in inputs {
        let quoted = Bash::quote_vec(Quotable::from_bytes(input));
        assert_eq!(bash_read_word(&quoted), Some(input.to_vec()), "input {input:?}");
    }
}
