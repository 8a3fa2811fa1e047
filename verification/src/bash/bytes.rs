//! The byte-input path of the Bash-family encoder.

use vstd::prelude::*;

use crate::ascii::all_inert;
use crate::ascii::classified;
use crate::ascii::classify;
use crate::ascii::Char;
use crate::ascii::char_code;
use crate::util::hex_digit;
use crate::util::hex_escape;
use crate::util::hex_value;
use crate::util::is_hex_digit;
use crate::util::is_mnemonic;
use crate::util::mnemonic_value;
use crate::util::prepend_byte;
use crate::util::push_hex_escape;

verus! {

/// The bytes one classified unit contributes inside a `$'...'` word:
/// backslash mnemonics for the named controls, `\xHH` for other controls,
/// delete, and high bytes, fixed escapes for backslash and single quote, and
/// the unit's own byte otherwise.
pub open spec fn unit_escape(mode: Char) -> Seq<u8> {
    match mode {
        Char::Bell => seq![0x5C, 0x61],
        Char::Backspace => seq![0x5C, 0x62],
        Char::Escape => seq![0x5C, 0x65],
        Char::FormFeed => seq![0x5C, 0x66],
        Char::NewLine => seq![0x5C, 0x6E],
        Char::CarriageReturn => seq![0x5C, 0x72],
        Char::HorizontalTab => seq![0x5C, 0x74],
        Char::VerticalTab => seq![0x5C, 0x76],
        Char::Control(ch) => hex_escape(ch),
        Char::Backslash => seq![0x5C, 0x5C],
        Char::SingleQuote => seq![0x5C, 0x27],
        Char::DoubleQuote => seq![0x22],
        Char::Delete => hex_escape(0x7F),
        Char::PrintableInert(ch) => seq![ch],
        Char::Printable(ch) => seq![ch],
        Char::Extended(ch) => hex_escape(ch),
    }
}

/// The body of the `$'...'` word: every unit's contribution, in order.
pub open spec fn escape_seq(s: Seq<Char>) -> Seq<u8>
    decreases s.len(),
{
    if s.len() == 0 {
        Seq::<u8>::empty()
    } else {
        unit_escape(s[0]) + escape_seq(s.drop_first())
    }
}

/// A whole ANSI-C-style quoted word: `$'`, the escaped body, `'`.
pub open spec fn escaped(s: Seq<Char>) -> Seq<u8> {
    seq![0x24, 0x27] + escape_seq(s) + seq![0x27]
}

/// What quoting a byte string for the Bash family returns: the empty-word
/// literal `''` for empty input, the input itself when every byte is inert,
/// and a single `$'...'` word otherwise.
pub open spec fn quoted(s: Seq<u8>) -> Seq<u8> {
    if s.len() == 0 {
        seq![0x27, 0x27]
    } else if all_inert(s) {
        s
    } else {
        escaped(classified(s))
    }
}

/// Appending one unit to the classified sequence appends its escape to the
/// body.
pub proof fn lemma_escape_seq_push(s: Seq<Char>, c: Char)
    ensures
        escape_seq(s.push(c)) == escape_seq(s) + unit_escape(c),
    decreases s.len(),
{
    if s.len() == 0 {
        assert(s.push(c)[0] == c);
        assert(s.push(c).drop_first() =~= Seq::<Char>::empty());
        assert(escape_seq(s.push(c)) == unit_escape(c) + escape_seq(Seq::<Char>::empty()));
        assert(escape_seq(s.push(c)) =~= escape_seq(s) + unit_escape(c));
    } else {
        lemma_escape_seq_push(s.drop_first(), c);
        assert(s.push(c).drop_first() =~= s.drop_first().push(c));
        assert(escape_seq(s.push(c)) =~= escape_seq(s) + unit_escape(c));
    }
}

/// Every unit contributes at least one byte to the body.
pub proof fn lemma_escape_seq_len(s: Seq<Char>)
    ensures
        escape_seq(s).len() >= s.len(),
    decreases s.len(),
{
    if s.len() > 0 {
        lemma_escape_seq_len(s.drop_first());
        assert(unit_escape(s[0]).len() >= 1);
    }
}

/// The three-way outcome of classifying an input: empty, all-inert, or a
/// classified sequence that needs the full encode walk.
pub enum Prepared {
    Empty,
    Inert,
    Escape(Vec<Char>),
}

/// Classify every byte, and decide whether any escaping is needed at all.
pub fn escape_prepare(sin: &[u8]) -> (r: Prepared)
    ensures
        (match r {
            Prepared::Empty => sin@.len() == 0,
            Prepared::Inert => sin@.len() > 0 && all_inert(sin@),
            Prepared::Escape(esc) => sin@.len() > 0 && !all_inert(sin@) && esc@ == classified(
                sin@,
            ),
        }),
{
    let mut esc: Vec<Char> = Vec::new();
    let mut inert = true;
    let mut i: usize = 0;
    while i < sin.len()
        invariant
            i <= sin@.len(),
            esc@.len() == i,
            forall|j: int| 0 <= j < i ==> esc@[j] == classify(sin@[j]),
            inert == (forall|j: int| 0 <= j < i ==> classify(sin@[j]) is PrintableInert),
        decreases sin@.len() - i,
    {
        let c = Char::from(sin[i]);
        if !c.is_inert() {
            inert = false;
        }
        esc.push(c);
        i = i + 1;
    }
    if esc.len() == 0 {
        Prepared::Empty
    } else if inert {
        Prepared::Inert
    } else {
        proof {
            assert(esc@ =~= classified(sin@));
        }
        Prepared::Escape(esc)
    }
}

fn push_unit(sout: &mut Vec<u8>, mode: Char)
    ensures
        final(sout)@ == old(sout)@ + unit_escape(mode),
{
    match mode {
        Char::Bell => {
            sout.push(0x5C);
            sout.push(0x61);
        },
        Char::Backspace => {
            sout.push(0x5C);
            sout.push(0x62);
        },
        Char::Escape => {
            sout.push(0x5C);
            sout.push(0x65);
        },
        Char::FormFeed => {
            sout.push(0x5C);
            sout.push(0x66);
        },
        Char::NewLine => {
            sout.push(0x5C);
            sout.push(0x6E);
        },
        Char::CarriageReturn => {
            sout.push(0x5C);
            sout.push(0x72);
        },
        Char::HorizontalTab => {
            sout.push(0x5C);
            sout.push(0x74);
        },
        Char::VerticalTab => {
            sout.push(0x5C);
            sout.push(0x76);
        },
        Char::Control(ch) => push_hex_escape(sout, ch),
        Char::Backslash => {
            sout.push(0x5C);
            sout.push(0x5C);
        },
        Char::SingleQuote => {
            sout.push(0x5C);
            sout.push(0x27);
        },
        Char::DoubleQuote => {
            sout.push(0x22);
        },
        Char::Delete => push_hex_escape(sout, 0x7F),
        Char::PrintableInert(ch) => {
            sout.push(ch);
        },
        Char::Printable(ch) => {
            sout.push(ch);
        },
        Char::Extended(ch) => push_hex_escape(sout, ch),
    }
    proof {
        assert(sout@ =~= old(sout)@ + unit_escape(mode));
    }
}

/// Append a Bash-style `$'...'` quoted word for the classified sequence.
pub fn escape_chars(esc: Vec<Char>, sout: &mut Vec<u8>)
    ensures
        final(sout)@ == old(sout)@ + escaped(esc@),
{
    let ghost sout0 = sout@;
    sout.push(0x24);
    sout.push(0x27);
    proof {
        assert(esc@.take(0) =~= Seq::<Char>::empty());
        assert(sout@ =~= sout0 + seq![0x24u8, 0x27u8] + escape_seq(esc@.take(0)));
    }
    let mut i: usize = 0;
    while i < esc.len()
        invariant
            i <= esc@.len(),
            sout@ == sout0 + seq![0x24u8, 0x27u8] + escape_seq(esc@.take(i as int)),
        decreases esc@.len() - i,
    {
        let c = esc[i];
        push_unit(sout, c);
        proof {
            assert(esc@.take(i as int).push(esc@[i as int]) =~= esc@.take(i as int + 1));
            lemma_escape_seq_push(esc@.take(i as int), esc@[i as int]);
            assert(sout@ =~= sout0 + seq![0x24u8, 0x27u8] + escape_seq(esc@.take(i as int + 1)));
        }
        i = i + 1;
    }
    sout.push(0x27);
    proof {
        assert(esc@.take(esc@.len() as int) =~= esc@);
        assert(sout@ =~= sout0 + escaped(esc@));
    }
}


/// A model of how a Bash-family shell reads back one word, outside quotes:
/// `$'` starts an ANSI-C-quoted region, a bare `'` starts a plain
/// single-quoted region, a backslash makes the next byte literal, and
/// anything else is literal.
pub open spec fn lex_plain(out: Seq<u8>) -> Option<Seq<u8>>
    decreases out.len(),
{
    if out.len() == 0 {
        Option::Some(Seq::<u8>::empty())
    } else if out.len() >= 2 && out[0] == 0x24 && out[1] == 0x27 {
        lex_ansi(out.skip(2))
    } else if out[0] == 0x27 {
        lex_quote(out.drop_first())
    } else if out[0] == 0x5C {
        if out.len() < 2 {
            Option::None
        } else {
            prepend_byte(out[1], lex_plain(out.skip(2)))
        }
    } else {
        prepend_byte(out[0], lex_plain(out.drop_first()))
    }
}

/// The model inside a plain single-quoted region: everything but the
/// closing quote is literal.
pub open spec fn lex_quote(out: Seq<u8>) -> Option<Seq<u8>>
    decreases out.len(),
{
    if out.len() == 0 {
        Option::None
    } else if out[0] == 0x27 {
        lex_plain(out.drop_first())
    } else {
        prepend_byte(out[0], lex_quote(out.drop_first()))
    }
}

/// The model inside an ANSI-C-quoted region: `'` ends the region; a
/// backslash introduces a mnemonic, `\\`, `\'`, or a `\xHH` escape with one
/// or two hex digits read greedily; everything else is literal. The real
/// interpreter may drop what follows an embedded NUL; that truncation is a
/// property of the interpreter and is not part of this model.
pub open spec fn lex_ansi(out: Seq<u8>) -> Option<Seq<u8>>
    decreases out.len(),
{
    if out.len() == 0 {
        Option::None
    } else if out[0] == 0x27 {
        lex_plain(out.drop_first())
    } else if out[0] == 0x5C {
        if out.len() < 2 {
            Option::None
        } else {
            let e = out[1];
            if is_mnemonic(e) {
                prepend_byte(mnemonic_value(e), lex_ansi(out.skip(2)))
            } else if e == 0x5C {
                prepend_byte(0x5C, lex_ansi(out.skip(2)))
            } else if e == 0x27 {
                prepend_byte(0x27, lex_ansi(out.skip(2)))
            } else if e == 0x78 {
                if out.len() >= 4 && is_hex_digit(out[2]) && is_hex_digit(out[3]) {
                    prepend_byte(
                        (hex_value(out[2]) * 16 + hex_value(out[3])) as u8,
                        lex_ansi(out.skip(4)),
                    )
                } else if out.len() >= 3 && is_hex_digit(out[2]) {
                    prepend_byte(hex_value(out[2]), lex_ansi(out.skip(3)))
                } else {
                    Option::None
                }
            } else {
                Option::None
            }
        }
    } else {
        prepend_byte(out[0], lex_ansi(out.drop_first()))
    }
}

pub(crate) proof fn lemma_ansi_escape_pair(m: u8, v: u8, rest: Seq<u8>)
    requires
        (is_mnemonic(m) && mnemonic_value(m) == v) || (m == 0x5C && v == 0x5C) || (m == 0x27 && v
            == 0x27),
    ensures
        lex_ansi(seq![0x5Cu8, m] + rest) == prepend_byte(v, lex_ansi(rest)),
{
    let e = seq![0x5Cu8, m] + rest;
    assert(e[0] == 0x5C);
    assert(e[1] == m);
    assert(e.len() >= 2);
    assert(e.skip(2) =~= rest);
    assert(lex_ansi(e) == prepend_byte(v, lex_ansi(rest)));
}

pub(crate) proof fn lemma_ansi_hex(ch: u8, rest: Seq<u8>)
    ensures
        lex_ansi(hex_escape(ch) + rest) == prepend_byte(ch, lex_ansi(rest)),
{
    let e = hex_escape(ch) + rest;
    crate::util::lemma_hex_pair_value(ch);
    assert(e[0] == 0x5C);
    assert(e[1] == 0x78);
    assert(e[2] == hex_digit(ch / 16));
    assert(e[3] == hex_digit(ch % 16));
    assert(e.len() >= 4);
    assert(e.skip(4) =~= rest);
    assert(!is_mnemonic(0x78));
    assert(((hex_value(e[2]) * 16 + hex_value(e[3])) as u8) == ch);
    assert(lex_ansi(e) == prepend_byte(ch, lex_ansi(rest)));
}

pub(crate) proof fn lemma_ansi_literal(b: u8, rest: Seq<u8>)
    requires
        b != 0x27,
        b != 0x5C,
    ensures
        lex_ansi(seq![b] + rest) == prepend_byte(b, lex_ansi(rest)),
{
    let e = seq![b] + rest;
    assert(e[0] == b);
    assert(e.drop_first() =~= rest);
    assert(lex_ansi(e) == prepend_byte(b, lex_ansi(rest)));
}

proof fn lemma_ansi_unit(c: Char, rest: Seq<u8>)
    requires
        classify(char_code(c)) == c,
    ensures
        lex_ansi(unit_escape(c) + rest) == prepend_byte(char_code(c), lex_ansi(rest)),
{
    match c {
        Char::Bell => lemma_ansi_escape_pair(0x61, 0x07, rest),
        Char::Backspace => lemma_ansi_escape_pair(0x62, 0x08, rest),
        Char::Escape => lemma_ansi_escape_pair(0x65, 0x1B, rest),
        Char::FormFeed => lemma_ansi_escape_pair(0x66, 0x0C, rest),
        Char::NewLine => lemma_ansi_escape_pair(0x6E, 0x0A, rest),
        Char::CarriageReturn => lemma_ansi_escape_pair(0x72, 0x0D, rest),
        Char::HorizontalTab => lemma_ansi_escape_pair(0x74, 0x09, rest),
        Char::VerticalTab => lemma_ansi_escape_pair(0x76, 0x0B, rest),
        Char::Control(ch) => lemma_ansi_hex(ch, rest),
        Char::Backslash => lemma_ansi_escape_pair(0x5C, 0x5C, rest),
        Char::SingleQuote => lemma_ansi_escape_pair(0x27, 0x27, rest),
        Char::DoubleQuote => lemma_ansi_literal(0x22, rest),
        Char::Delete => lemma_ansi_hex(0x7F, rest),
        Char::PrintableInert(ch) => {
            assert(ch != 0x27 && ch != 0x5C);
            lemma_ansi_literal(ch, rest);
        },
        Char::Printable(ch) => {
            assert(ch != 0x27 && ch != 0x5C);
            lemma_ansi_literal(ch, rest);
        },
        Char::Extended(ch) => lemma_ansi_hex(ch, rest),
    }
}

proof fn lemma_ansi_body(s: Seq<u8>, rest: Seq<u8>)
    ensures
        lex_ansi(escape_seq(classified(s)) + rest) == (match lex_ansi(rest) {
            Option::Some(t) => Option::Some(s + t),
            Option::None => Option::<Seq<u8>>::None,
        }),
    decreases s.len(),
{
    let cs = classified(s);
    if s.len() == 0 {
        assert(escape_seq(cs) + rest =~= rest);
        match lex_ansi(rest) {
            Option::Some(t) => {
                assert(s + t =~= t);
            },
            Option::None => {},
        }
    } else {
        let c = classify(s[0]);
        crate::ascii::lemma_classify_code(s[0]);
        assert(cs[0] == c);
        let s1 = s.drop_first();
        assert(cs.drop_first() =~= classified(s1));
        assert(escape_seq(cs) == unit_escape(c) + escape_seq(classified(s1)));
        assert(escape_seq(cs) + rest =~= unit_escape(c) + (escape_seq(classified(s1)) + rest));
        lemma_ansi_unit(c, escape_seq(classified(s1)) + rest);
        lemma_ansi_body(s1, rest);
        match lex_ansi(rest) {
            Option::Some(t) => {
                assert(seq![s[0]] + (s1 + t) =~= s + t);
            },
            Option::None => {},
        }
    }
}

pub(crate) proof fn lemma_plain_inert(s: Seq<u8>)
    requires
        all_inert(s),
    ensures
        lex_plain(s) == Option::Some(s),
    decreases s.len(),
{
    if s.len() > 0 {
        assert(classify(s[0]) is PrintableInert);
        assert(s[0] != 0x24 && s[0] != 0x27 && s[0] != 0x5C);
        assert(forall|i: int| 0 <= i < s.drop_first().len() ==> s.drop_first()[i] == s[i + 1]);
        lemma_plain_inert(s.drop_first());
        assert(seq![s[0]] + s.drop_first() =~= s);
    }
}

/// Round trip: for every byte string, reading the quoted word back with the
/// modeled Bash-family parser yields exactly the original bytes. (The real
/// interpreter's truncation at an embedded NUL is outside the model; see
/// `lex_ansi`.)
pub proof fn lemma_round_trip(s: Seq<u8>)
    ensures
        lex_plain(quoted(s)) == Option::Some(s),
{
    if s.len() == 0 {
        let w = quoted(s);
        assert(w == seq![0x27u8, 0x27u8]);
        assert(w[0] == 0x27 && w[1] == 0x27);
        assert(w.drop_first() =~= seq![0x27u8]);
        assert(lex_plain(w) == lex_quote(seq![0x27u8]));
        assert(seq![0x27u8][0] == 0x27);
        assert(seq![0x27u8].drop_first() =~= Seq::<u8>::empty());
        assert(lex_quote(seq![0x27u8]) == lex_plain(Seq::<u8>::empty()));
        assert(lex_plain(Seq::<u8>::empty()) == Option::Some(Seq::<u8>::empty()));
        assert(s =~= Seq::<u8>::empty());
    } else if all_inert(s) {
        lemma_plain_inert(s);
    } else {
        let cs = classified(s);
        let w = quoted(s);
        assert(w == seq![0x24, 0x27] + escape_seq(cs) + seq![0x27]);
        assert(w.len() >= 2);
        assert(w[0] == 0x24);
        assert(w[1] == 0x27);
        assert(w.skip(2) =~= escape_seq(cs) + seq![0x27u8]);
        assert(lex_plain(w) == lex_ansi(escape_seq(cs) + seq![0x27u8]));
        lemma_ansi_body(s, seq![0x27u8]);
        assert(seq![0x27u8][0] == 0x27);
        assert(seq![0x27u8].drop_first() =~= Seq::<u8>::empty());
        assert(lex_ansi(seq![0x27u8]) == lex_plain(Seq::<u8>::empty()));
        assert(lex_plain(Seq::<u8>::empty()) == Option::Some(Seq::<u8>::empty()));
        assert(s + Seq::<u8>::empty() =~= s);
    }
}


pub(crate) proof fn lemma_ansi_literal_run(lit: Seq<u8>, rest: Seq<u8>)
    requires
        forall|i: int| 0 <= i < lit.len() ==> lit[i] != 0x27 && lit[i] != 0x5C,
    ensures
        lex_ansi(lit + rest) == (match lex_ansi(rest) {
            Option::Some(t) => Option::Some(lit + t),
            Option::None => Option::<Seq<u8>>::None,
        }),
    decreases lit.len(),
{
    if lit.len() == 0 {
        assert(lit + rest =~= rest);
        match lex_ansi(rest) {
            Option::Some(t) => {
                assert(lit + t =~= t);
            },
            Option::None => {},
        }
    } else {
        let lit1 = lit.drop_first();
        assert(forall|i: int| 0 <= i < lit1.len() ==> lit1[i] == lit[i + 1]);
        assert(lit + rest =~= seq![lit[0]] + (lit1 + rest));
        lemma_ansi_literal(lit[0], lit1 + rest);
        lemma_ansi_literal_run(lit1, rest);
        match lex_ansi(rest) {
            Option::Some(t) => {
                assert(seq![lit[0]] + (lit1 + t) =~= lit + t);
            },
            Option::None => {},
        }
    }
}

} // verus!
