//! Hex representations of single bytes, as the quoting grammars use them.

use vstd::prelude::*;

verus! {

/// The ASCII digit for a value below 16, with uppercase letters.
pub open spec fn hex_digit(n: u8) -> u8
    recommends
        n < 16,
{
    if n < 10 {
        (0x30 + n) as u8
    } else {
        (0x37 + n) as u8
    }
}

/// The two uppercase hex digits of a byte.
pub open spec fn hex_pair(ch: u8) -> Seq<u8> {
    seq![hex_digit(ch / 16), hex_digit(ch % 16)]
}

/// A byte as a `\xHH` escape sequence (backslash, a literal `x`, two
/// uppercase hex digits), as Bash-family shells understand it.
pub open spec fn hex_escape(ch: u8) -> Seq<u8> {
    seq![0x5C, 0x78] + hex_pair(ch)
}

/// A byte as a `\XHH` escape sequence (uppercase `X`), as fish understands
/// it.
pub open spec fn hex_escape_upper_x(ch: u8) -> Seq<u8> {
    seq![0x5C, 0x58] + hex_pair(ch)
}

fn hex_digit_exec(n: u8) -> (r: u8)
    requires
        n < 16,
    ensures
        r == hex_digit(n),
{
    if n < 10 {
        0x30 + n
    } else {
        0x37 + n
    }
}

/// Represent a single byte as a 2-byte hex number.
pub fn u8_to_hex(ch: u8) -> (r: [u8; 2])
    ensures
        r@ == hex_pair(ch),
{
    let r = [hex_digit_exec(ch / 16), hex_digit_exec(ch % 16)];
    proof {
        assert(r@ =~= hex_pair(ch));
    }
    r
}

/// Escape a byte as a 4-byte hex escape sequence, `\xHH`.
pub fn u8_to_hex_escape(ch: u8) -> (r: [u8; 4])
    ensures
        r@ == hex_escape(ch),
{
    let r = [0x5C, 0x78, hex_digit_exec(ch / 16), hex_digit_exec(ch % 16)];
    proof {
        assert(r@ =~= hex_escape(ch));
    }
    r
}

/// Escape a byte as a 4-byte hex escape sequence with uppercase `X`, `\XHH`.
pub fn u8_to_hex_escape_uppercase_x(ch: u8) -> (r: [u8; 4])
    ensures
        r@ == hex_escape_upper_x(ch),
{
    let r = [0x5C, 0x58, hex_digit_exec(ch / 16), hex_digit_exec(ch % 16)];
    proof {
        assert(r@ =~= hex_escape_upper_x(ch));
    }
    r
}

/// Append a `\xHH` escape to a buffer.
pub(crate) fn push_hex_escape(sout: &mut Vec<u8>, ch: u8)
    ensures
        final(sout)@ == old(sout)@ + hex_escape(ch),
{
    sout.push(0x5C);
    sout.push(0x78);
    sout.push(hex_digit_exec(ch / 16));
    sout.push(hex_digit_exec(ch % 16));
    proof {
        assert(sout@ =~= old(sout)@ + hex_escape(ch));
    }
}

/// Append a `\XHH` escape to a buffer.
pub(crate) fn push_hex_escape_upper_x(sout: &mut Vec<u8>, ch: u8)
    ensures
        final(sout)@ == old(sout)@ + hex_escape_upper_x(ch),
{
    sout.push(0x5C);
    sout.push(0x58);
    sout.push(hex_digit_exec(ch / 16));
    sout.push(hex_digit_exec(ch % 16));
    proof {
        assert(sout@ =~= old(sout)@ + hex_escape_upper_x(ch));
    }
}

/// Append a whole byte slice to a buffer.
pub(crate) fn extend_bytes(sout: &mut Vec<u8>, other: &[u8])
    ensures
        final(sout)@ == old(sout)@ + other@,
{
    let mut i: usize = 0;
    while i < other.len()
        invariant
            i <= other@.len(),
            sout@ == old(sout)@ + other@.take(i as int),
        decreases other@.len() - i,
    {
        sout.push(other[i]);
        proof {
            assert(sout@ =~= old(sout)@ + other@.take(i as int + 1));
        }
        i = i + 1;
    }
    proof {
        assert(other@.take(other@.len() as int) =~= other@);
    }
}

/// The value of an ASCII hex digit, uppercase or lowercase.
pub open spec fn hex_value(d: u8) -> u8 {
    if 0x30 <= d && d <= 0x39 {
        (d - 0x30) as u8
    } else if 0x41 <= d && d <= 0x46 {
        (d - 0x37) as u8
    } else {
        (d - 0x57) as u8
    }
}

/// True for the bytes that are ASCII hex digits.
pub open spec fn is_hex_digit(d: u8) -> bool {
    (0x30 <= d && d <= 0x39) || (0x41 <= d && d <= 0x46) || (0x61 <= d && d <= 0x66)
}

/// Reading the two emitted digits of a byte back gives the byte.
pub proof fn lemma_hex_pair_value(ch: u8)
    ensures
        is_hex_digit(hex_digit(ch / 16)),
        is_hex_digit(hex_digit(ch % 16)),
        hex_value(hex_digit(ch / 16)) * 16 + hex_value(hex_digit(ch % 16)) == ch,
{
    assert(hex_value(hex_digit(ch / 16)) == ch / 16);
    assert(hex_value(hex_digit(ch % 16)) == ch % 16);
    assert((ch / 16) * 16 + ch % 16 == ch) by (nonlinear_arith);
}

/// Prepend one decoded byte to the result of decoding the rest of a word,
/// propagating failure.
pub open spec fn prepend_byte(b: u8, rest: Option<Seq<u8>>) -> Option<Seq<u8>> {
    match rest {
        Option::Some(t) => Option::Some(seq![b] + t),
        Option::None => Option::None,
    }
}


/// True for the ASCII letters that name single-character backslash escapes
/// (`a b e f n r t v`) in the Bash and fish grammars.
pub open spec fn is_mnemonic(e: u8) -> bool {
    e == 0x61 || e == 0x62 || e == 0x65 || e == 0x66 || e == 0x6E || e == 0x72 || e == 0x74 || e
        == 0x76
}

/// The control byte a backslash mnemonic stands for.
pub open spec fn mnemonic_value(e: u8) -> u8
    recommends
        is_mnemonic(e),
{
    if e == 0x61 {
        0x07
    } else if e == 0x62 {
        0x08
    } else if e == 0x65 {
        0x1B
    } else if e == 0x66 {
        0x0C
    } else if e == 0x6E {
        0x0A
    } else if e == 0x72 {
        0x0D
    } else if e == 0x74 {
        0x09
    } else {
        0x0B
    }
}

} // verus!
