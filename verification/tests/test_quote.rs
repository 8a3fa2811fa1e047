use shell_quote::quote;
use shell_quote::quote_into;
use shell_quote::Quotable;
use shell_quote::Shell;

#[test]
fn test_quote_dispatch() {
    assert_eq!(quote(Shell::Bash, Quotable::from_text("foo bar")), b"$'foo bar'");
    assert_eq!(quote(Shell::Fish, Quotable::from_text("foo bar")), b"foo' bar'");
    assert_eq!(quote(Shell::Sh, Quotable::from_text("foo bar")), b"foo' bar'");
}

#[test]
fn test_quote_into_keeps_prior_contents() {
    for shell in [Shell::Bash, Shell::Fish, Shell::Sh] {
        let mut buffer = Vec::from(*b"prefix ");
        quote_into(shell, Quotable::from_text("x y"), &mut buffer);
        assert!(buffer.starts_with(b"prefix "));
    }
}

#[test]
fn test_inert_identity_all_dialects() {
    // A string of inert characters comes back verbatim from every dialect,
    // on both the byte and the text path.
    let inert = "azAZ09,./_-";
    for shell in [Shell::Bash, Shell::Fish, Shell::Sh] {
        assert_eq!(quote(shell, Quotable::from_text(inert)), inert.as_bytes());
        assert_eq!(quote(shell, Quotable::from_bytes(inert.as_bytes())), inert.as_bytes());
    }
}

#[test]
fn test_empty_word_all_dialects() {
    // The canonical empty-word literal: two adjacent single quotes.
    for shell in [Shell::Bash, Shell::Fish, Shell::Sh] {
        assert_eq!(quote(shell, Quotable::from_text("")), b"''");
        assert_eq!(quote(shell, Quotable::from_bytes(b"")), b"''");
    }
}

#[test]
fn test_mixed_punctuation_never_raw() {
    // Punctuation with one non-inert character must trigger the escaping
    // path in every dialect: the output is never the input itself.
    let mixed = "-_=/,.+ ";
    for shell in [Shell::Bash, Shell::Fish, Shell::Sh] {
        let quoted = quote(shell, Quotable::from_text(mixed));
        assert_ne!(quoted, mixed.as_bytes());
        assert!(quoted.len() > mixed.len());
        let quoted = quote(shell, Quotable::from_bytes(mixed.as_bytes()));
        assert_ne!(quoted, mixed.as_bytes());
        assert!(quoted.len() > mixed.len());
    }
}

/// Scan an output word the way the given shell lexes it, counting the
/// transitions that open and close quoted runs.
fn quote_transitions(shell: Shell, out: &[u8]) -> (usize, usize, bool) {
    let mut opens = 0;
    let mut closes = 0;
    let mut inside = false;
    let mut i = 0;
    while i < out.len() {
        if inside {
            match out[i] {
                b'\'' => {
                    closes += 1;
                    inside = false;
                    i += 1;
                }
                // Inside Bash's `$'...'` and inside fish quotes, a backslash
                // escapes the next byte; inside `/bin/sh` quotes it is
                // literal.
                b'\\' if shell != Shell::Sh && i + 1 < out.len() => i += 2,
                _ => i += 1,
            }
        } else {
            match out[i] {
                b'\'' => {
                    opens += 1;
                    inside = true;
                    i += 1;
                }
                b'$' if shell == Shell::Bash && i + 1 < out.len() && out[i + 1] == b'\'' => {
                    opens += 1;
                    inside = true;
                    i += 2;
                }
                b'\\' => i += 2,
                _ => i += 1,
            }
        }
    }
    (opens, closes, inside)
}

#[test]
fn test_quotes_balanced() {
    // Structural check: in every output, the number of quote-opening
    // transitions equals the number of quote-closing transitions — no
    // output ends inside an unterminated quoted run.
    let inputs: [&[u8]; 8] =
        [b"", b"'", b"''", b"a'b", b"'a", b"a'", b"it's here", b"weird ' mix \x01'\x80"];
    for shell in [Shell::Bash, Shell::Fish, Shell::Sh] {
        for input in inputs {
            let quoted = quote(shell, Quotable::from_bytes(input));
            let (opens, closes, inside) = quote_transitions(shell, &quoted);
            assert_eq!(opens, closes, "unbalanced quotes in {quoted:?}");
            assert!(!inside, "unterminated quoted run in {quoted:?}");
        }
    }
}
