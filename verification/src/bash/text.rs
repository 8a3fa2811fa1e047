//! The text-input path of the Bash-family encoder: ASCII is escaped exactly
//! as on the byte path, while non-ASCII scalar values are re-encoded as
//! UTF-8 and inserted literally.

use vstd::prelude::*;
use vstd::string::StrSliceExecFns;

use crate::bash::bytes::lemma_ansi_escape_pair;
use crate::bash::bytes::lemma_ansi_hex;
use crate::bash::bytes::lemma_ansi_literal;
use crate::bash::bytes::lemma_ansi_literal_run;
use crate::bash::bytes::lemma_plain_inert;
use crate::bash::bytes::lex_ansi;
use crate::bash::bytes::lex_plain;
use crate::bash::bytes::lex_quote;
use crate::utf8::all_inert_text;
use crate::utf8::lemma_inert_text_utf8;
use crate::utf8::lemma_scalar_bytes_high;
use crate::utf8::classified_text;
use crate::utf8::classify_char;
use crate::utf8::push_utf8;
use crate::utf8::Char;
use crate::util::hex_escape;
use crate::util::push_hex_escape;

verus! {

/// The bytes one classified scalar contributes inside a `$'...'` word.
pub open spec fn unit_escape(mode: Char) -> Seq<u8> {
    match mode {
        Char::Bell => seq![0x5C, 0x61],
        Char::Backspace => seq![0x5C, 0x62],
        Char::Escape => seq![0x5C, 0x65],
        Char::FormFeed => seq![0x5C, 0x66],
        Char::NewLine => seq![0x5C, 0x6E],
        Char::CarriageReturn => seq![0x5C, 0x72],
        Char::HorizontalTab => seq![0x5C, 0x74],
        Char::VerticalTab => seq![0x5C, 0x76],
        Char::Control(ch) => hex_escape(ch),
        Char::Backslash => seq![0x5C, 0x5C],
        Char::SingleQuote => seq![0x5C, 0x27],
        Char::DoubleQuote => seq![0x22],
        Char::Delete => hex_escape(0x7F),
        Char::PrintableInert(ch) => seq![ch],
        Char::Printable(ch) => seq![ch],
        Char::Utf8(c) => vstd::utf8::encode_scalar(c as u32),
    }
}

/// The body of the `$'...'` word: every scalar's contribution, in order.
pub open spec fn escape_seq(s: Seq<Char>) -> Seq<u8>
    decreases s.len(),
{
    if s.len() == 0 {
        Seq::<u8>::empty()
    } else {
        unit_escape(s[0]) + escape_seq(s.drop_first())
    }
}

/// A whole ANSI-C-style quoted word: `$'`, the escaped body, `'`.
pub open spec fn escaped(s: Seq<Char>) -> Seq<u8> {
    seq![0x24, 0x27] + escape_seq(s) + seq![0x27]
}

/// What quoting a text for the Bash family returns: `''` for empty input,
/// the text's own UTF-8 bytes when every scalar is inert, and a single
/// `$'...'` word otherwise.
pub open spec fn quoted(t: Seq<char>) -> Seq<u8> {
    if t.len() == 0 {
        seq![0x27, 0x27]
    } else if all_inert_text(t) {
        vstd::utf8::encode_utf8(t)
    } else {
        escaped(classified_text(t))
    }
}

/// Appending one scalar to the classified sequence appends its escape to
/// the body.
pub proof fn lemma_escape_seq_push(s: Seq<Char>, c: Char)
    ensures
        escape_seq(s.push(c)) == escape_seq(s) + unit_escape(c),
    decreases s.len(),
{
    if s.len() == 0 {
        assert(s.push(c)[0] == c);
        assert(s.push(c).drop_first() =~= Seq::<Char>::empty());
        assert(escape_seq(s.push(c)) == unit_escape(c) + escape_seq(Seq::<Char>::empty()));
        assert(escape_seq(s.push(c)) =~= escape_seq(s) + unit_escape(c));
    } else {
        lemma_escape_seq_push(s.drop_first(), c);
        assert(s.push(c).drop_first() =~= s.drop_first().push(c));
        assert(escape_seq(s.push(c)) =~= escape_seq(s) + unit_escape(c));
    }
}

/// The three-way outcome of classifying a text input.
pub enum Prepared {
    Empty,
    Inert,
    Escape(Vec<Char>),
}

/// Classify every scalar value, and decide whether any escaping is needed.
pub fn escape_prepare(sin: &str) -> (r: Prepared)
    ensures
        (match r {
            Prepared::Empty => sin@.len() == 0,
            Prepared::Inert => sin@.len() > 0 && all_inert_text(sin@),
            Prepared::Escape(esc) => sin@.len() > 0 && !all_inert_text(sin@) && esc@
                == classified_text(sin@),
        }),
{
    let n = sin.unicode_len();
    let mut esc: Vec<Char> = Vec::new();
    let mut inert = true;
    let mut i: usize = 0;
    while i < n
        invariant
            n == sin@.len(),
            i <= n,
            esc@.len() == i,
            forall|j: int| 0 <= j < i ==> esc@[j] == classify_char(sin@[j]),
            inert == (forall|j: int| 0 <= j < i ==> classify_char(sin@[j]) is PrintableInert),
        decreases n - i,
    {
        let c = Char::from(sin.get_char(i));
        if !c.is_inert() {
            inert = false;
        }
        esc.push(c);
        i = i + 1;
    }
    if esc.len() == 0 {
        Prepared::Empty
    } else if inert {
        Prepared::Inert
    } else {
        proof {
            assert(esc@ =~= classified_text(sin@));
        }
        Prepared::Escape(esc)
    }
}

fn push_unit(sout: &mut Vec<u8>, mode: Char)
    ensures
        final(sout)@ == old(sout)@ + unit_escape(mode),
{
    match mode {
        Char::Bell => {
            sout.push(0x5C);
            sout.push(0x61);
        },
        Char::Backspace => {
            sout.push(0x5C);
            sout.push(0x62);
        },
        Char::Escape => {
            sout.push(0x5C);
            sout.push(0x65);
        },
        Char::FormFeed => {
            sout.push(0x5C);
            sout.push(0x66);
        },
        Char::NewLine => {
            sout.push(0x5C);
            sout.push(0x6E);
        },
        Char::CarriageReturn => {
            sout.push(0x5C);
            sout.push(0x72);
        },
        Char::HorizontalTab => {
            sout.push(0x5C);
            sout.push(0x74);
        },
        Char::VerticalTab => {
            sout.push(0x5C);
            sout.push(0x76);
        },
        Char::Control(ch) => push_hex_escape(sout, ch),
        Char::Backslash => {
            sout.push(0x5C);
            sout.push(0x5C);
        },
        Char::SingleQuote => {
            sout.push(0x5C);
            sout.push(0x27);
        },
        Char::DoubleQuote => {
            sout.push(0x22);
        },
        Char::Delete => push_hex_escape(sout, 0x7F),
        Char::PrintableInert(ch) => {
            sout.push(ch);
        },
        Char::Printable(ch) => {
            sout.push(ch);
        },
        Char::Utf8(c) => push_utf8(sout, c),
    }
    proof {
        assert(sout@ =~= old(sout)@ + unit_escape(mode));
    }
}

/// Append a Bash-style `$'...'` quoted word for the classified text.
pub fn escape_chars(esc: Vec<Char>, sout: &mut Vec<u8>)
    ensures
        final(sout)@ == old(sout)@ + escaped(esc@),
{
    let ghost sout0 = sout@;
    sout.push(0x24);
    sout.push(0x27);
    proof {
        assert(esc@.take(0) =~= Seq::<Char>::empty());
        assert(sout@ =~= sout0 + seq![0x24u8, 0x27u8] + escape_seq(esc@.take(0)));
    }
    let mut i: usize = 0;
    while i < esc.len()
        invariant
            i <= esc@.len(),
            sout@ == sout0 + seq![0x24u8, 0x27u8] + escape_seq(esc@.take(i as int)),
        decreases esc@.len() - i,
    {
        let c = esc[i];
        push_unit(sout, c);
        proof {
            assert(esc@.take(i as int).push(esc@[i as int]) =~= esc@.take(i as int + 1));
            lemma_escape_seq_push(esc@.take(i as int), esc@[i as int]);
            assert(sout@ =~= sout0 + seq![0x24u8, 0x27u8] + escape_seq(esc@.take(i as int + 1)));
        }
        i = i + 1;
    }
    sout.push(0x27);
    proof {
        assert(esc@.take(esc@.len() as int) =~= esc@);
        assert(sout@ =~= sout0 + escaped(esc@));
    }
}


proof fn lemma_ansi_unit_text(c: char, rest: Seq<u8>)
    ensures
        lex_ansi(unit_escape(classify_char(c)) + rest) == (match lex_ansi(rest) {
            Option::Some(t) => Option::Some(vstd::utf8::encode_scalar(c as u32) + t),
            Option::None => Option::<Seq<u8>>::None,
        }),
{
    let u = c as u32;
    let tc = classify_char(c);
    if u > 0x7F {
        vstd::utf8::char_is_scalar(c);
        lemma_scalar_bytes_high(c);
        assert(unit_escape(tc) == vstd::utf8::encode_scalar(u));
        lemma_ansi_literal_run(vstd::utf8::encode_scalar(u), rest);
    } else {
        let b = u as u8;
        assert(u & 0x7F == u) by (bit_vector)
            requires
                u <= 0x7F,
        ;
        assert(vstd::utf8::encode_scalar(u) =~= seq![b]);
        let v: u8 = match tc {
            Char::Bell => {
                lemma_ansi_escape_pair(0x61, 0x07, rest);
                0x07
            },
            Char::Backspace => {
                lemma_ansi_escape_pair(0x62, 0x08, rest);
                0x08
            },
            Char::Escape => {
                lemma_ansi_escape_pair(0x65, 0x1B, rest);
                0x1B
            },
            Char::FormFeed => {
                lemma_ansi_escape_pair(0x66, 0x0C, rest);
                0x0C
            },
            Char::NewLine => {
                lemma_ansi_escape_pair(0x6E, 0x0A, rest);
                0x0A
            },
            Char::CarriageReturn => {
                lemma_ansi_escape_pair(0x72, 0x0D, rest);
                0x0D
            },
            Char::HorizontalTab => {
                lemma_ansi_escape_pair(0x74, 0x09, rest);
                0x09
            },
            Char::VerticalTab => {
                lemma_ansi_escape_pair(0x76, 0x0B, rest);
                0x0B
            },
            Char::Control(ch) => {
                lemma_ansi_hex(ch, rest);
                ch
            },
            Char::Backslash => {
                lemma_ansi_escape_pair(0x5C, 0x5C, rest);
                0x5C
            },
            Char::SingleQuote => {
                lemma_ansi_escape_pair(0x27, 0x27, rest);
                0x27
            },
            Char::DoubleQuote => {
                lemma_ansi_literal(0x22, rest);
                0x22
            },
            Char::Delete => {
                lemma_ansi_hex(0x7F, rest);
                0x7F
            },
            Char::PrintableInert(ch) => {
                lemma_ansi_literal(ch, rest);
                ch
            },
            Char::Printable(ch) => {
                lemma_ansi_literal(ch, rest);
                ch
            },
            Char::Utf8(_) => {
                assert(false);
                0
            },
        };
        assert(v == b);
        match lex_ansi(rest) {
            Option::Some(t) => {
                assert(seq![b] + t =~= vstd::utf8::encode_scalar(u) + t);
            },
            Option::None => {},
        }
    }
}

proof fn lemma_ansi_body_text(s: Seq<char>, rest: Seq<u8>)
    ensures
        lex_ansi(escape_seq(classified_text(s)) + rest) == (match lex_ansi(rest) {
            Option::Some(t) => Option::Some(vstd::utf8::encode_utf8(s) + t),
            Option::None => Option::<Seq<u8>>::None,
        }),
    decreases s.len(),
{
    let cs = classified_text(s);
    if s.len() == 0 {
        assert(escape_seq(cs) + rest =~= rest);
        assert(vstd::utf8::encode_utf8(s) =~= Seq::<u8>::empty());
        match lex_ansi(rest) {
            Option::Some(t) => {
                assert(vstd::utf8::encode_utf8(s) + t =~= t);
            },
            Option::None => {},
        }
    } else {
        let c = s[0];
        assert(cs[0] == classify_char(c));
        let s1 = s.drop_first();
        assert(cs.drop_first() =~= classified_text(s1));
        assert(escape_seq(cs) == unit_escape(classify_char(c)) + escape_seq(classified_text(s1)));
        assert(escape_seq(cs) + rest =~= unit_escape(classify_char(c)) + (escape_seq(
            classified_text(s1),
        ) + rest));
        lemma_ansi_unit_text(c, escape_seq(classified_text(s1)) + rest);
        lemma_ansi_body_text(s1, rest);
        assert(vstd::utf8::encode_utf8(s) == vstd::utf8::encode_scalar(c as u32)
            + vstd::utf8::encode_utf8(s1));
        match lex_ansi(rest) {
            Option::Some(t) => {
                assert(vstd::utf8::encode_scalar(c as u32) + (vstd::utf8::encode_utf8(s1) + t)
                    =~= vstd::utf8::encode_utf8(s) + t);
            },
            Option::None => {},
        }
    }
}

/// Round trip for text: reading the quoted word back with the modeled
/// Bash-family parser yields exactly the text's UTF-8 bytes, which decode
/// to the original scalars.
pub proof fn lemma_round_trip_text(t: Seq<char>)
    ensures
        lex_plain(quoted(t)) == Option::Some(vstd::utf8::encode_utf8(t)),
        vstd::utf8::decode_utf8(vstd::utf8::encode_utf8(t)) == t,
{
    vstd::utf8::encode_utf8_decode_utf8(t);
    if t.len() == 0 {
        let w = quoted(t);
        assert(w == seq![0x27u8, 0x27u8]);
        assert(w[0] == 0x27 && w[1] == 0x27);
        assert(w.drop_first() =~= seq![0x27u8]);
        assert(lex_plain(w) == lex_quote(seq![0x27u8]));
        assert(seq![0x27u8][0] == 0x27);
        assert(seq![0x27u8].drop_first() =~= Seq::<u8>::empty());
        assert(lex_quote(seq![0x27u8]) == lex_plain(Seq::<u8>::empty()));
        assert(lex_plain(Seq::<u8>::empty()) == Option::Some(Seq::<u8>::empty()));
        assert(vstd::utf8::encode_utf8(t) =~= Seq::<u8>::empty());
    } else if all_inert_text(t) {
        lemma_inert_text_utf8(t);
        lemma_plain_inert(vstd::utf8::encode_utf8(t));
    } else {
        let cs = classified_text(t);
        let w = quoted(t);
        assert(w == seq![0x24, 0x27] + escape_seq(cs) + seq![0x27]);
        assert(w.len() >= 2);
        assert(w[0] == 0x24);
        assert(w[1] == 0x27);
        assert(w.skip(2) =~= escape_seq(cs) + seq![0x27u8]);
        assert(lex_plain(w) == lex_ansi(escape_seq(cs) + seq![0x27u8]));
        lemma_ansi_body_text(t, seq![0x27u8]);
        assert(seq![0x27u8][0] == 0x27);
        assert(seq![0x27u8].drop_first() =~= Seq::<u8>::empty());
        assert(lex_ansi(seq![0x27u8]) == lex_plain(Seq::<u8>::empty()));
        assert(lex_plain(Seq::<u8>::empty()) == Option::Some(Seq::<u8>::empty()));
        assert(vstd::utf8::encode_utf8(t) + Seq::<u8>::empty() =~= vstd::utf8::encode_utf8(t));
    }
}

} // verus!
