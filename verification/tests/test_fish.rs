use shell_quote::Fish;
use shell_quote::Quotable;

fn quote(s: &str) -> Vec<u8> {
    Fish::quote_vec(Quotable::from_text(s))
}

#[test]
fn test_fish_test_lowercase_ascii() {
    assert_eq!(quote("abcdefghijklmnopqrstuvwxyz"), b"abcdefghijklmnopqrstuvwxyz");
}

#[test]
fn test_fish_test_uppercase_ascii() {
    assert_eq!(quote("ABCDEFGHIJKLMNOPQRSTUVWXYZ"), b"ABCDEFGHIJKLMNOPQRSTUVWXYZ");
}

#[test]
fn test_fish_test_numbers() {
    assert_eq!(quote("0123456789"), b"0123456789");
}

#[test]
fn test_fish_test_punctuation() {
    assert_eq!(quote("-_=/,.+"), b"-_'=/,.+'");
    assert_eq!(quote("Hello \r\n"), b"Hello' '\\r\\n");
}

#[test]
fn test_fish_test_empty_string() {
    assert_eq!(quote(""), b"''");
}

#[test]
fn test_fish_test_basic_escapes() {
    assert_eq!(quote(r#"woo"wah""#), br#"woo'"wah"'"#);
    assert_eq!(quote(r#"'"#), br#"\'"#);
}

#[test]
fn test_fish_test_control_characters() {
    assert_eq!(quote("\x00"), b"\\X00");
    assert_eq!(quote("\x07"), b"\\a");
    assert_eq!(quote("\x00"), b"\\X00");
    assert_eq!(quote("\x06"), b"\\X06");
    assert_eq!(quote("\x7F"), b"\\X7F");
}

#[test]
fn test_fish_test_utf8() {
    // UTF-8 for code points U+0080 and above is included verbatim.
    assert_eq!(quote("Hello 👋"), b"Hello' \xf0\x9f\x91\x8b'");
}

#[test]
fn test_multiple_parts() {
    assert_eq!(quote("\x00AA12"), b"\\X00AA12");
    assert_eq!(quote("\x07A\x06B\x07"), b"\\aA\\X06B\\a");
    assert_eq!(quote("AAA\x7F"), b"AAA\\X7F");
    assert_eq!(quote("\x06\x06"), b"\\X06\\X06");
}

#[test]
fn test_new_lines() {
    assert_eq!(quote("A\nB"), b"A\\nB");
}

#[test]
fn test_fish_test_escape_into_plain() {
    let mut buffer = Vec::new();
    Fish::quote_into_vec(Quotable::from_text("hello"), &mut buffer);
    assert_eq!(buffer, b"hello");
}

#[test]
fn test_fish_test_escape_into_with_escapes() {
    let mut buffer = Vec::new();
    Fish::quote_into_vec(Quotable::from_text("-_=/,.+"), &mut buffer);
    assert_eq!(buffer, b"-_'=/,.+'");
}

#[test]
fn test_vec_push_quoted_with_fish() {
    let mut buffer = Vec::from(*b"Hello, ");
    Fish::quote_into_vec(Quotable::from_text("World, Bob, !@#$%^&*(){}[]"), &mut buffer);
    let string = String::from_utf8(buffer).unwrap(); // -> test failures are more readable.
    assert_eq!(string, "Hello, World,' Bob, !@#$%^&*(){}[]'");
}

#[test]
fn test_fish_seed_examples() {
    assert_eq!(quote("foobar"), b"foobar");
    assert_eq!(quote("foo 'bar"), b"foo' \\'bar'");
    assert_eq!(quote("\x00"), b"\\X00");
}

#[test]
fn test_fish_quote_bytes() {
    // The byte-input path: high bytes become `\XHH` escapes.
    assert_eq!(Fish::quote_vec(Quotable::from_bytes(b"foobar")), b"foobar");
    assert_eq!(Fish::quote_vec(Quotable::from_bytes(b"\x80")), b"\\X80");
    assert_eq!(Fish::quote_vec(Quotable::from_bytes(b"a\\b")), b"a\\\\b");
}

/// A small model of how fish reads back one word: enough to check, without
/// a real shell, that quoting round-trips.
fn fish_read_word(out: &[u8]) -> Option<Vec<u8>> {
    let mut result = Vec::new();
    let mut i = 0;
    let mut inside = false;
    while i < out.len() {
        if inside {
            match out[i] {
                b'\'' => {
                    inside = false;
                    i += 1;
                }
                b'\\' if i + 1 < out.len() && (out[i + 1] == b'\\' || out[i + 1] == b'\'') => {
                    result.push(out[i + 1]);
                    i += 2;
                }
                b => {
                    result.push(b);
                    i += 1;
                }
            }
        } else {
            match out[i] {
                b'\'' => {
                    inside = true;
                    i += 1;
                }
                b'\\' => {
                    if i + 1 >= out.len() {
                        return None;
                    }
                    match out[i + 1] {
                        b'a' => result.push(0x07),
                        b'b' => result.push(0x08),
                        b'e' => result.push(0x1B),
                        b'f' => result.push(0x0C),
                        b'n' => result.push(0x0A),
                        b'r' => result.push(0x0D),
                        b't' => result.push(0x09),
                        b'v' => result.push(0x0B),
                        b'\\' => result.push(b'\\'),
                        b'\'' => result.push(b'\''),
                        b'X' | b'x' => {
                            let h1 = (out.get(i + 2)?.to_owned() as char).to_digit(16)?;
                            let h2 = (out.get(i + 3)?.to_owned() as char).to_digit(16)?;
                            result.push((h1 * 16 + h2) as u8);
                            i += 2;
                        }
                        _ => return None,
                    }
                    i += 2;
                }
                b => {
                    result.push(b);
                    i += 1;
                }
            }
        }
    }
    if inside {
        return None;
    }
    Some(result)
}

#[test]
fn test_fish_round_trip_all_bytes() {
    let input: Vec<u8> = (u8::MIN..=u8::MAX).collect();
    let quoted = Fish::quote_vec(Quotable::from_bytes(&input));
    assert_eq!(fish_read_word(&quoted), Some(input));
    // And byte by byte.
    for b in u8::MIN..=u8::MAX {
        let quoted = Fish::quote_vec(Quotable::from_bytes(&[b]));
        assert_eq!(fish_read_word(&quoted), Some(vec![b]), "byte {b:#04X}");
    }
}

#[test]
fn test_fish_round_trip_tricky() {
    let inputs: [&[u8]; 9] =
        [b"'", b"''", b"a'b", b"'a", b"a'", b"\\'", b"'\\", b"it's here", b"foo 'bar"];
    for input in inputs {
        let quoted = Fish::quote_vec(Quotable::from_bytes(input));
        assert_eq!(fish_read_word(&quoted), Some(input.to_vec()), "input {input:?}");
    }
}
