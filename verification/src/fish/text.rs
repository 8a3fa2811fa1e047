//! The text-input path of the fish encoder: ASCII is handled exactly as on
//! the byte path, while non-ASCII scalar values are re-encoded as UTF-8 and
//! emitted into whichever context is already active.

use vstd::prelude::*;
use vstd::string::StrSliceExecFns;

use crate::fish::bytes::lemma_fish_unit;
use crate::fish::bytes::lemma_plain_inert;
use crate::fish::bytes::lemma_plain_literal_run;
use crate::fish::bytes::lemma_quote_literal_run;
use crate::fish::bytes::lex_plain;
use crate::fish::bytes::lex_quote;
use crate::fish::bytes::lex_state;
use crate::fish::Placement;
use crate::utf8::lemma_inert_text_utf8;
use crate::utf8::lemma_scalar_bytes_high;
use crate::utf8::all_inert_text;
use crate::utf8::classified_text;
use crate::utf8::classify_char;
use crate::utf8::push_utf8;
use crate::utf8::Char;
use crate::util::hex_escape_upper_x;
use crate::util::push_hex_escape_upper_x;

verus! {

/// Where one classified scalar's bytes must sit. Unicode scalars are
/// indifferent: their UTF-8 bytes read the same inside or outside quotes.
pub open spec fn placement(mode: Char) -> Placement {
    match mode {
        Char::Backslash => Placement::Whatever,
        Char::SingleQuote => Placement::Whatever,
        Char::PrintableInert(_) => Placement::Whatever,
        Char::Utf8(_) => Placement::Whatever,
        Char::DoubleQuote => Placement::Inside,
        Char::Printable(_) => Placement::Inside,
        _ => Placement::Outside,
    }
}

/// The literal bytes one classified scalar contributes, not counting any
/// quote transition.
pub open spec fn unit_literal(mode: Char) -> Seq<u8> {
    match mode {
        Char::Bell => seq![0x5C, 0x61],
        Char::Backspace => seq![0x5C, 0x62],
        Char::Escape => seq![0x5C, 0x65],
        Char::FormFeed => seq![0x5C, 0x66],
        Char::NewLine => seq![0x5C, 0x6E],
        Char::CarriageReturn => seq![0x5C, 0x72],
        Char::HorizontalTab => seq![0x5C, 0x74],
        Char::VerticalTab => seq![0x5C, 0x76],
        Char::Control(ch) => hex_escape_upper_x(ch),
        Char::Backslash => seq![0x5C, 0x5C],
        Char::SingleQuote => seq![0x5C, 0x27],
        Char::DoubleQuote => seq![0x22],
        Char::Delete => hex_escape_upper_x(0x7F),
        Char::PrintableInert(ch) => seq![ch],
        Char::Printable(ch) => seq![ch],
        Char::Utf8(c) => vstd::utf8::encode_scalar(c as u32),
    }
}

/// The quote state after one scalar.
pub open spec fn unit_state(mode: Char, inside: bool) -> bool {
    match placement(mode) {
        Placement::Inside => true,
        Placement::Outside => false,
        Placement::Whatever => inside,
    }
}

/// The bytes one scalar contributes: a quote transition when its placement
/// demands one, then its literal.
pub open spec fn unit_emit(mode: Char, inside: bool) -> Seq<u8> {
    if inside != unit_state(mode, inside) {
        seq![0x27u8] + unit_literal(mode)
    } else {
        unit_literal(mode)
    }
}

/// The bytes of the whole walk, left to right, threading the quote state;
/// without the final closing quote.
pub open spec fn emits(s: Seq<Char>, inside: bool) -> Seq<u8>
    decreases s.len(),
{
    if s.len() == 0 {
        Seq::<u8>::empty()
    } else {
        unit_emit(s[0], inside) + emits(s.drop_first(), unit_state(s[0], inside))
    }
}

/// The quote state after the whole walk.
pub open spec fn state_after(s: Seq<Char>, inside: bool) -> bool
    decreases s.len(),
{
    if s.len() == 0 {
        inside
    } else {
        state_after(s.drop_first(), unit_state(s[0], inside))
    }
}

/// A whole quoted word: the walk's bytes, and a closing quote if the walk
/// ends inside a quoted run.
pub open spec fn escaped(s: Seq<Char>) -> Seq<u8> {
    emits(s, false) + (if state_after(s, false) {
        seq![0x27u8]
    } else {
        Seq::<u8>::empty()
    })
}

/// What quoting a text for fish returns: `''` for empty input, the text's
/// own UTF-8 bytes when every scalar is inert, and the walked word
/// otherwise.
pub open spec fn quoted(t: Seq<char>) -> Seq<u8> {
    if t.len() == 0 {
        seq![0x27, 0x27]
    } else if all_inert_text(t) {
        vstd::utf8::encode_utf8(t)
    } else {
        escaped(classified_text(t))
    }
}

/// Appending one scalar to the classified sequence appends its emission, in
/// the state the walk had reached, and updates the final state accordingly.
pub proof fn lemma_emits_push(s: Seq<Char>, c: Char, st: bool)
    ensures
        emits(s.push(c), st) == emits(s, st) + unit_emit(c, state_after(s, st)),
        state_after(s.push(c), st) == unit_state(c, state_after(s, st)),
    decreases s.len(),
{
    if s.len() == 0 {
        assert(s.push(c)[0] == c);
        assert(s.push(c).drop_first() =~= Seq::<Char>::empty());
        assert(emits(s.push(c), st) == unit_emit(c, st) + emits(
            Seq::<Char>::empty(),
            unit_state(c, st),
        ));
        assert(emits(s.push(c), st) =~= emits(s, st) + unit_emit(c, state_after(s, st)));
        assert(state_after(s.push(c), st) == state_after(Seq::<Char>::empty(), unit_state(c, st)));
    } else {
        lemma_emits_push(s.drop_first(), c, unit_state(s[0], st));
        assert(s.push(c)[0] == s[0]);
        assert(s.push(c).drop_first() =~= s.drop_first().push(c));
        assert(emits(s.push(c), st) =~= emits(s, st) + unit_emit(c, state_after(s, st)));
        assert(state_after(s.push(c), st) == state_after(
            s.drop_first().push(c),
            unit_state(s[0], st),
        ));
        assert(state_after(s, st) == state_after(s.drop_first(), unit_state(s[0], st)));
    }
}

/// The three-way outcome of classifying a text input.
pub enum Prepared {
    Empty,
    Inert,
    Escape(Vec<Char>),
}

/// Classify every scalar value, and decide whether any escaping is needed.
pub fn escape_prepare(sin: &str) -> (r: Prepared)
    ensures
        (match r {
            Prepared::Empty => sin@.len() == 0,
            Prepared::Inert => sin@.len() > 0 && all_inert_text(sin@),
            Prepared::Escape(esc) => sin@.len() > 0 && !all_inert_text(sin@) && esc@
                == classified_text(sin@),
        }),
{
    let n = sin.unicode_len();
    let mut esc: Vec<Char> = Vec::new();
    let mut inert = true;
    let mut i: usize = 0;
    while i < n
        invariant
            n == sin@.len(),
            i <= n,
            esc@.len() == i,
            forall|j: int| 0 <= j < i ==> esc@[j] == classify_char(sin@[j]),
            inert == (forall|j: int| 0 <= j < i ==> classify_char(sin@[j]) is PrintableInert),
        decreases n - i,
    {
        let c = Char::from(sin.get_char(i));
        if !c.is_inert() {
            inert = false;
        }
        esc.push(c);
        i = i + 1;
    }
    if esc.len() == 0 {
        Prepared::Empty
    } else if inert {
        Prepared::Inert
    } else {
        proof {
            assert(esc@ =~= classified_text(sin@));
        }
        Prepared::Escape(esc)
    }
}

fn placement_of(mode: Char) -> (r: Placement)
    ensures
        r == placement(mode),
{
    match mode {
        Char::Backslash => Placement::Whatever,
        Char::SingleQuote => Placement::Whatever,
        Char::PrintableInert(_) => Placement::Whatever,
        Char::Utf8(_) => Placement::Whatever,
        Char::DoubleQuote => Placement::Inside,
        Char::Printable(_) => Placement::Inside,
        _ => Placement::Outside,
    }
}

fn push_literal(sout: &mut Vec<u8>, mode: Char)
    ensures
        final(sout)@ == old(sout)@ + unit_literal(mode),
{
    match mode {
        Char::Bell => {
            sout.push(0x5C);
            sout.push(0x61);
        },
        Char::Backspace => {
            sout.push(0x5C);
            sout.push(0x62);
        },
        Char::Escape => {
            sout.push(0x5C);
            sout.push(0x65);
        },
        Char::FormFeed => {
            sout.push(0x5C);
            sout.push(0x66);
        },
        Char::NewLine => {
            sout.push(0x5C);
            sout.push(0x6E);
        },
        Char::CarriageReturn => {
            sout.push(0x5C);
            sout.push(0x72);
        },
        Char::HorizontalTab => {
            sout.push(0x5C);
            sout.push(0x74);
        },
        Char::VerticalTab => {
            sout.push(0x5C);
            sout.push(0x76);
        },
        Char::Control(ch) => push_hex_escape_upper_x(sout, ch),
        Char::Backslash => {
            sout.push(0x5C);
            sout.push(0x5C);
        },
        Char::SingleQuote => {
            sout.push(0x5C);
            sout.push(0x27);
        },
        Char::DoubleQuote => {
            sout.push(0x22);
        },
        Char::Delete => push_hex_escape_upper_x(sout, 0x7F),
        Char::PrintableInert(ch) => {
            sout.push(ch);
        },
        Char::Printable(ch) => {
            sout.push(ch);
        },
        Char::Utf8(c) => push_utf8(sout, c),
    }
    proof {
        assert(sout@ =~= old(sout)@ + unit_literal(mode));
    }
}

fn push_unit(sout: &mut Vec<u8>, mode: Char, inside: bool) -> (r: bool)
    ensures
        final(sout)@ == old(sout)@ + unit_emit(mode, inside),
        r == unit_state(mode, inside),
{
    let next = match placement_of(mode) {
        Placement::Inside => true,
        Placement::Outside => false,
        Placement::Whatever => inside,
    };
    if inside != next {
        sout.push(0x27);
    }
    push_literal(sout, mode);
    proof {
        assert(sout@ =~= old(sout)@ + unit_emit(mode, inside));
    }
    next
}

/// Append the quoted word for the classified text, tracking the quote state
/// across the walk and closing any quote left open at the end.
pub fn escape_chars(esc: Vec<Char>, sout: &mut Vec<u8>)
    ensures
        final(sout)@ == old(sout)@ + escaped(esc@),
{
    let ghost sout0 = sout@;
    let mut inside = false;
    proof {
        assert(esc@.take(0) =~= Seq::<Char>::empty());
    }
    let mut i: usize = 0;
    while i < esc.len()
        invariant
            i <= esc@.len(),
            sout@ == sout0 + emits(esc@.take(i as int), false),
            inside == state_after(esc@.take(i as int), false),
        decreases esc@.len() - i,
    {
        let c = esc[i];
        inside = push_unit(sout, c, inside);
        proof {
            assert(esc@.take(i as int).push(esc@[i as int]) =~= esc@.take(i as int + 1));
            lemma_emits_push(esc@.take(i as int), esc@[i as int], false);
            assert(sout@ =~= sout0 + emits(esc@.take(i as int + 1), false));
        }
        i = i + 1;
    }
    proof {
        assert(esc@.take(esc@.len() as int) =~= esc@);
    }
    if inside {
        sout.push(0x27);
    }
    proof {
        assert(sout@ =~= sout0 + escaped(esc@));
    }
}


proof fn lemma_fish_unit_text(c: char, st: bool, rest: Seq<u8>)
    ensures
        lex_state(unit_emit(classify_char(c), st) + rest, st) == (match lex_state(
            rest,
            unit_state(classify_char(c), st),
        ) {
            Option::Some(t) => Option::Some(vstd::utf8::encode_scalar(c as u32) + t),
            Option::None => Option::<Seq<u8>>::None,
        }),
{
    let u = c as u32;
    let tc = classify_char(c);
    if u > 0x7F {
        vstd::utf8::char_is_scalar(c);
        lemma_scalar_bytes_high(c);
        assert(placement(tc) is Whatever);
        assert(unit_state(tc, st) == st);
        assert(unit_emit(tc, st) == vstd::utf8::encode_scalar(u));
        if st {
            lemma_quote_literal_run(vstd::utf8::encode_scalar(u), rest);
        } else {
            lemma_plain_literal_run(vstd::utf8::encode_scalar(u), rest);
        }
    } else {
        let b = u as u8;
        assert(u & 0x7F == u) by (bit_vector)
            requires
                u <= 0x7F,
        ;
        assert(vstd::utf8::encode_scalar(u) =~= seq![b]);
        let bc = crate::ascii::classify(b);
        crate::ascii::lemma_classify_code(b);
        assert(unit_literal(tc) == crate::fish::bytes::unit_literal(bc));
        assert(unit_state(tc, st) == crate::fish::bytes::unit_state(bc, st));
        assert(unit_emit(tc, st) == crate::fish::bytes::unit_emit(bc, st));
        lemma_fish_unit(bc, st, rest);
        match lex_state(rest, unit_state(tc, st)) {
            Option::Some(t) => {
                assert(seq![b] + t =~= vstd::utf8::encode_scalar(u) + t);
            },
            Option::None => {},
        }
    }
}

proof fn lemma_lex_emits_text(s: Seq<char>, st: bool, rest: Seq<u8>)
    ensures
        lex_state(emits(classified_text(s), st) + rest, st) == (match lex_state(
            rest,
            state_after(classified_text(s), st),
        ) {
            Option::Some(t) => Option::Some(vstd::utf8::encode_utf8(s) + t),
            Option::None => Option::<Seq<u8>>::None,
        }),
    decreases s.len(),
{
    let cs = classified_text(s);
    if s.len() == 0 {
        assert(emits(cs, st) + rest =~= rest);
        assert(state_after(cs, st) == st);
        assert(vstd::utf8::encode_utf8(s) =~= Seq::<u8>::empty());
        match lex_state(rest, st) {
            Option::Some(t) => {
                assert(vstd::utf8::encode_utf8(s) + t =~= t);
            },
            Option::None => {},
        }
    } else {
        let c = s[0];
        let tc = classify_char(c);
        assert(cs[0] == tc);
        let st2 = unit_state(tc, st);
        let s1 = s.drop_first();
        assert(cs.drop_first() =~= classified_text(s1));
        assert(emits(cs, st) == unit_emit(tc, st) + emits(classified_text(s1), st2));
        assert(emits(cs, st) + rest =~= unit_emit(tc, st) + (emits(classified_text(s1), st2)
            + rest));
        lemma_fish_unit_text(c, st, emits(classified_text(s1), st2) + rest);
        lemma_lex_emits_text(s1, st2, rest);
        assert(state_after(cs, st) == state_after(classified_text(s1), st2));
        assert(vstd::utf8::encode_utf8(s) == vstd::utf8::encode_scalar(c as u32)
            + vstd::utf8::encode_utf8(s1));
        match lex_state(rest, state_after(classified_text(s1), st2)) {
            Option::Some(t) => {
                assert(vstd::utf8::encode_scalar(c as u32) + (vstd::utf8::encode_utf8(s1) + t)
                    =~= vstd::utf8::encode_utf8(s) + t);
            },
            Option::None => {},
        }
    }
}

/// Round trip for text: reading the quoted word back with the modeled fish
/// parser yields exactly the text's UTF-8 bytes, which decode to the
/// original scalars.
pub proof fn lemma_round_trip_text(t: Seq<char>)
    ensures
        lex_plain(quoted(t)) == Option::Some(vstd::utf8::encode_utf8(t)),
        vstd::utf8::decode_utf8(vstd::utf8::encode_utf8(t)) == t,
{
    vstd::utf8::encode_utf8_decode_utf8(t);
    if t.len() == 0 {
        let w = quoted(t);
        assert(w == seq![0x27u8, 0x27u8]);
        assert(w[0] == 0x27);
        assert(w.drop_first() =~= seq![0x27u8]);
        assert(lex_plain(w) == lex_quote(seq![0x27u8]));
        assert(seq![0x27u8][0] == 0x27);
        assert(seq![0x27u8].drop_first() =~= Seq::<u8>::empty());
        assert(lex_quote(seq![0x27u8]) == lex_plain(Seq::<u8>::empty()));
        assert(lex_plain(Seq::<u8>::empty()) == Option::Some(Seq::<u8>::empty()));
        assert(vstd::utf8::encode_utf8(t) =~= Seq::<u8>::empty());
    } else if all_inert_text(t) {
        lemma_inert_text_utf8(t);
        lemma_plain_inert(vstd::utf8::encode_utf8(t));
    } else {
        let cs = classified_text(t);
        let close: Seq<u8> = if state_after(cs, false) {
            seq![0x27u8]
        } else {
            Seq::<u8>::empty()
        };
        assert(quoted(t) == emits(cs, false) + close);
        lemma_lex_emits_text(t, false, close);
        if state_after(cs, false) {
            assert(close[0] == 0x27);
            assert(close.drop_first() =~= Seq::<u8>::empty());
            assert(lex_quote(close) == lex_plain(Seq::<u8>::empty()));
            assert(lex_plain(Seq::<u8>::empty()) == Option::Some(Seq::<u8>::empty()));
        } else {
            assert(lex_plain(close) == Option::Some(Seq::<u8>::empty()));
        }
        assert(vstd::utf8::encode_utf8(t) + Seq::<u8>::empty() =~= vstd::utf8::encode_utf8(t));
    }
}

} // verus!
