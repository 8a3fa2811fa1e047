//! The byte-input path of the fish encoder.

use vstd::prelude::*;

use crate::ascii::all_inert;
use crate::ascii::classified;
use crate::ascii::classify;
use crate::ascii::Char;
use crate::fish::Placement;
use crate::ascii::char_code;
use crate::util::hex_digit;
use crate::util::hex_escape_upper_x;
use crate::util::hex_value;
use crate::util::is_hex_digit;
use crate::util::is_mnemonic;
use crate::util::mnemonic_value;
use crate::util::prepend_byte;
use crate::util::push_hex_escape_upper_x;

verus! {

/// Where one classified unit's bytes must sit: the named controls, other
/// controls, delete, and high bytes are emitted via escapes that are only
/// legal outside quotes; metacharacters and the double quote are only safe
/// inside quotes; inert printables, backslash, and single quote are emitted
/// the same way in either context.
pub open spec fn placement(mode: Char) -> Placement {
    match mode {
        Char::Backslash => Placement::Whatever,
        Char::SingleQuote => Placement::Whatever,
        Char::PrintableInert(_) => Placement::Whatever,
        Char::DoubleQuote => Placement::Inside,
        Char::Printable(_) => Placement::Inside,
        _ => Placement::Outside,
    }
}

/// The literal bytes one classified unit contributes, not counting any
/// quote transition.
pub open spec fn unit_literal(mode: Char) -> Seq<u8> {
    match mode {
        Char::Bell => seq![0x5C, 0x61],
        Char::Backspace => seq![0x5C, 0x62],
        Char::Escape => seq![0x5C, 0x65],
        Char::FormFeed => seq![0x5C, 0x66],
        Char::NewLine => seq![0x5C, 0x6E],
        Char::CarriageReturn => seq![0x5C, 0x72],
        Char::HorizontalTab => seq![0x5C, 0x74],
        Char::VerticalTab => seq![0x5C, 0x76],
        Char::Control(ch) => hex_escape_upper_x(ch),
        Char::Backslash => seq![0x5C, 0x5C],
        Char::SingleQuote => seq![0x5C, 0x27],
        Char::DoubleQuote => seq![0x22],
        Char::Delete => hex_escape_upper_x(0x7F),
        Char::PrintableInert(ch) => seq![ch],
        Char::Printable(ch) => seq![ch],
        Char::Extended(ch) => hex_escape_upper_x(ch),
    }
}

/// The quote state after one unit.
pub open spec fn unit_state(mode: Char, inside: bool) -> bool {
    match placement(mode) {
        Placement::Inside => true,
        Placement::Outside => false,
        Placement::Whatever => inside,
    }
}

/// The bytes one unit contributes: a closing quote when moving from inside
/// to a must-be-outside unit, an opening quote when moving from outside to
/// a must-be-inside unit, then the unit's literal.
pub open spec fn unit_emit(mode: Char, inside: bool) -> Seq<u8> {
    if inside != unit_state(mode, inside) {
        seq![0x27u8] + unit_literal(mode)
    } else {
        unit_literal(mode)
    }
}

/// The bytes of the whole walk, left to right, threading the quote state;
/// without the final closing quote.
pub open spec fn emits(s: Seq<Char>, inside: bool) -> Seq<u8>
    decreases s.len(),
{
    if s.len() == 0 {
        Seq::<u8>::empty()
    } else {
        unit_emit(s[0], inside) + emits(s.drop_first(), unit_state(s[0], inside))
    }
}

/// The quote state after the whole walk.
pub open spec fn state_after(s: Seq<Char>, inside: bool) -> bool
    decreases s.len(),
{
    if s.len() == 0 {
        inside
    } else {
        state_after(s.drop_first(), unit_state(s[0], inside))
    }
}

/// A whole quoted word: the walk's bytes, and a closing quote if the walk
/// ends inside a quoted run.
pub open spec fn escaped(s: Seq<Char>) -> Seq<u8> {
    emits(s, false) + (if state_after(s, false) {
        seq![0x27u8]
    } else {
        Seq::<u8>::empty()
    })
}

/// What quoting a byte string for fish returns: the empty-word literal `''`
/// for empty input, the input itself when every byte is inert, and the
/// walked word otherwise.
pub open spec fn quoted(s: Seq<u8>) -> Seq<u8> {
    if s.len() == 0 {
        seq![0x27, 0x27]
    } else if all_inert(s) {
        s
    } else {
        escaped(classified(s))
    }
}

/// Appending one unit to the classified sequence appends its emission, in
/// the state the walk had reached, and updates the final state accordingly.
pub proof fn lemma_emits_push(s: Seq<Char>, c: Char, st: bool)
    ensures
        emits(s.push(c), st) == emits(s, st) + unit_emit(c, state_after(s, st)),
        state_after(s.push(c), st) == unit_state(c, state_after(s, st)),
    decreases s.len(),
{
    if s.len() == 0 {
        assert(s.push(c)[0] == c);
        assert(s.push(c).drop_first() =~= Seq::<Char>::empty());
        assert(emits(s.push(c), st) == unit_emit(c, st) + emits(
            Seq::<Char>::empty(),
            unit_state(c, st),
        ));
        assert(emits(s.push(c), st) =~= emits(s, st) + unit_emit(c, state_after(s, st)));
        assert(state_after(s.push(c), st) == state_after(Seq::<Char>::empty(), unit_state(c, st)));
    } else {
        lemma_emits_push(s.drop_first(), c, unit_state(s[0], st));
        assert(s.push(c)[0] == s[0]);
        assert(s.push(c).drop_first() =~= s.drop_first().push(c));
        assert(emits(s.push(c), st) =~= emits(s, st) + unit_emit(c, state_after(s, st)));
        assert(state_after(s.push(c), st) == state_after(
            s.drop_first().push(c),
            unit_state(s[0], st),
        ));
        assert(state_after(s, st) == state_after(s.drop_first(), unit_state(s[0], st)));
    }
}

/// The three-way outcome of classifying an input: empty, all-inert, or a
/// classified sequence that needs the full encode walk.
pub enum Prepared {
    Empty,
    Inert,
    Escape(Vec<Char>),
}

/// Classify every byte, and decide whether any escaping is needed at all.
pub fn escape_prepare(sin: &[u8]) -> (r: Prepared)
    ensures
        (match r {
            Prepared::Empty => sin@.len() == 0,
            Prepared::Inert => sin@.len() > 0 && all_inert(sin@),
            Prepared::Escape(esc) => sin@.len() > 0 && !all_inert(sin@) && esc@ == classified(
                sin@,
            ),
        }),
{
    let mut esc: Vec<Char> = Vec::new();
    let mut inert = true;
    let mut i: usize = 0;
    while i < sin.len()
        invariant
            i <= sin@.len(),
            esc@.len() == i,
            forall|j: int| 0 <= j < i ==> esc@[j] == classify(sin@[j]),
            inert == (forall|j: int| 0 <= j < i ==> classify(sin@[j]) is PrintableInert),
        decreases sin@.len() - i,
    {
        let c = Char::from(sin[i]);
        if !c.is_inert() {
            inert = false;
        }
        esc.push(c);
        i = i + 1;
    }
    if esc.len() == 0 {
        Prepared::Empty
    } else if inert {
        Prepared::Inert
    } else {
        proof {
            assert(esc@ =~= classified(sin@));
        }
        Prepared::Escape(esc)
    }
}

fn placement_of(mode: Char) -> (r: Placement)
    ensures
        r == placement(mode),
{
    match mode {
        Char::Backslash => Placement::Whatever,
        Char::SingleQuote => Placement::Whatever,
        Char::PrintableInert(_) => Placement::Whatever,
        Char::DoubleQuote => Placement::Inside,
        Char::Printable(_) => Placement::Inside,
        _ => Placement::Outside,
    }
}

fn push_literal(sout: &mut Vec<u8>, mode: Char)
    ensures
        final(sout)@ == old(sout)@ + unit_literal(mode),
{
    match mode {
        Char::Bell => {
            sout.push(0x5C);
            sout.push(0x61);
        },
        Char::Backspace => {
            sout.push(0x5C);
            sout.push(0x62);
        },
        Char::Escape => {
            sout.push(0x5C);
            sout.push(0x65);
        },
        Char::FormFeed => {
            sout.push(0x5C);
            sout.push(0x66);
        },
        Char::NewLine => {
            sout.push(0x5C);
            sout.push(0x6E);
        },
        Char::CarriageReturn => {
            sout.push(0x5C);
            sout.push(0x72);
        },
        Char::HorizontalTab => {
            sout.push(0x5C);
            sout.push(0x74);
        },
        Char::VerticalTab => {
            sout.push(0x5C);
            sout.push(0x76);
        },
        Char::Control(ch) => push_hex_escape_upper_x(sout, ch),
        Char::Backslash => {
            sout.push(0x5C);
            sout.push(0x5C);
        },
        Char::SingleQuote => {
            sout.push(0x5C);
            sout.push(0x27);
        },
        Char::DoubleQuote => {
            sout.push(0x22);
        },
        Char::Delete => push_hex_escape_upper_x(sout, 0x7F),
        Char::PrintableInert(ch) => {
            sout.push(ch);
        },
        Char::Printable(ch) => {
            sout.push(ch);
        },
        Char::Extended(ch) => push_hex_escape_upper_x(sout, ch),
    }
    proof {
        assert(sout@ =~= old(sout)@ + unit_literal(mode));
    }
}

fn push_unit(sout: &mut Vec<u8>, mode: Char, inside: bool) -> (r: bool)
    ensures
        final(sout)@ == old(sout)@ + unit_emit(mode, inside),
        r == unit_state(mode, inside),
{
    let next = match placement_of(mode) {
        Placement::Inside => true,
        Placement::Outside => false,
        Placement::Whatever => inside,
    };
    if inside != next {
        sout.push(0x27);
    }
    push_literal(sout, mode);
    proof {
        assert(sout@ =~= old(sout)@ + unit_emit(mode, inside));
    }
    next
}

/// Append the quoted word for the classified sequence, tracking the quote
/// state across the walk and closing any quote left open at the end.
pub fn escape_chars(esc: Vec<Char>, sout: &mut Vec<u8>)
    ensures
        final(sout)@ == old(sout)@ + escaped(esc@),
{
    let ghost sout0 = sout@;
    let mut inside = false;
    proof {
        assert(esc@.take(0) =~= Seq::<Char>::empty());
    }
    let mut i: usize = 0;
    while i < esc.len()
        invariant
            i <= esc@.len(),
            sout@ == sout0 + emits(esc@.take(i as int), false),
            inside == state_after(esc@.take(i as int), false),
        decreases esc@.len() - i,
    {
        let c = esc[i];
        inside = push_unit(sout, c, inside);
        proof {
            assert(esc@.take(i as int).push(esc@[i as int]) =~= esc@.take(i as int + 1));
            lemma_emits_push(esc@.take(i as int), esc@[i as int], false);
            assert(sout@ =~= sout0 + emits(esc@.take(i as int + 1), false));
        }
        i = i + 1;
    }
    proof {
        assert(esc@.take(esc@.len() as int) =~= esc@);
    }
    if inside {
        sout.push(0x27);
    }
    proof {
        assert(sout@ =~= sout0 + escaped(esc@));
    }
}


/// A model of how fish reads back one word, outside quotes: a single quote
/// opens a quoted region; a backslash introduces a mnemonic, `\\\\`, `\\'`,
/// or a `\\XHH`/`\\xHH` escape with one or two hex digits read greedily;
/// anything else is literal.
pub open spec fn lex_plain(out: Seq<u8>) -> Option<Seq<u8>>
    decreases out.len(),
{
    if out.len() == 0 {
        Option::Some(Seq::<u8>::empty())
    } else if out[0] == 0x27 {
        lex_quote(out.drop_first())
    } else if out[0] == 0x5C {
        if out.len() < 2 {
            Option::None
        } else {
            let e = out[1];
            if is_mnemonic(e) {
                prepend_byte(mnemonic_value(e), lex_plain(out.skip(2)))
            } else if e == 0x5C {
                prepend_byte(0x5C, lex_plain(out.skip(2)))
            } else if e == 0x27 {
                prepend_byte(0x27, lex_plain(out.skip(2)))
            } else if e == 0x58 || e == 0x78 {
                if out.len() >= 4 && is_hex_digit(out[2]) && is_hex_digit(out[3]) {
                    prepend_byte(
                        (hex_value(out[2]) * 16 + hex_value(out[3])) as u8,
                        lex_plain(out.skip(4)),
                    )
                } else if out.len() >= 3 && is_hex_digit(out[2]) {
                    prepend_byte(hex_value(out[2]), lex_plain(out.skip(3)))
                } else {
                    Option::None
                }
            } else {
                Option::None
            }
        }
    } else {
        prepend_byte(out[0], lex_plain(out.drop_first()))
    }
}

/// The model inside a fish single-quoted region: the closing quote ends
/// it; a backslash escapes only a backslash or a quote and is otherwise a
/// literal backslash; everything else is literal.
pub open spec fn lex_quote(out: Seq<u8>) -> Option<Seq<u8>>
    decreases out.len(),
{
    if out.len() == 0 {
        Option::None
    } else if out[0] == 0x27 {
        lex_plain(out.drop_first())
    } else if out[0] == 0x5C {
        if out.len() >= 2 && (out[1] == 0x5C || out[1] == 0x27) {
            prepend_byte(out[1], lex_quote(out.skip(2)))
        } else {
            prepend_byte(0x5C, lex_quote(out.drop_first()))
        }
    } else {
        prepend_byte(out[0], lex_quote(out.drop_first()))
    }
}

/// The parser model in whichever of the two contexts is active.
pub open spec fn lex_state(out: Seq<u8>, inside: bool) -> Option<Seq<u8>> {
    if inside {
        lex_quote(out)
    } else {
        lex_plain(out)
    }
}

pub(crate) proof fn lemma_plain_escape_pair(m: u8, v: u8, rest: Seq<u8>)
    requires
        (is_mnemonic(m) && mnemonic_value(m) == v) || (m == 0x5C && v == 0x5C) || (m == 0x27 && v
            == 0x27),
    ensures
        lex_plain(seq![0x5Cu8, m] + rest) == prepend_byte(v, lex_plain(rest)),
{
    let e = seq![0x5Cu8, m] + rest;
    assert(e[0] == 0x5C);
    assert(e[1] == m);
    assert(e.len() >= 2);
    assert(e.skip(2) =~= rest);
    assert(lex_plain(e) == prepend_byte(v, lex_plain(rest)));
}

pub(crate) proof fn lemma_plain_hex(ch: u8, rest: Seq<u8>)
    ensures
        lex_plain(hex_escape_upper_x(ch) + rest) == prepend_byte(ch, lex_plain(rest)),
{
    let e = hex_escape_upper_x(ch) + rest;
    crate::util::lemma_hex_pair_value(ch);
    assert(e[0] == 0x5C);
    assert(e[1] == 0x58);
    assert(e[2] == hex_digit(ch / 16));
    assert(e[3] == hex_digit(ch % 16));
    assert(e.len() >= 4);
    assert(e.skip(4) =~= rest);
    assert(!is_mnemonic(0x58));
    assert(((hex_value(e[2]) * 16 + hex_value(e[3])) as u8) == ch);
    assert(lex_plain(e) == prepend_byte(ch, lex_plain(rest)));
}

pub(crate) proof fn lemma_plain_literal(b: u8, rest: Seq<u8>)
    requires
        b != 0x27,
        b != 0x5C,
    ensures
        lex_plain(seq![b] + rest) == prepend_byte(b, lex_plain(rest)),
{
    let e = seq![b] + rest;
    assert(e[0] == b);
    assert(e.drop_first() =~= rest);
    assert(lex_plain(e) == prepend_byte(b, lex_plain(rest)));
}

pub(crate) proof fn lemma_quote_escape_pair(m: u8, rest: Seq<u8>)
    requires
        m == 0x5C || m == 0x27,
    ensures
        lex_quote(seq![0x5Cu8, m] + rest) == prepend_byte(m, lex_quote(rest)),
{
    let e = seq![0x5Cu8, m] + rest;
    assert(e[0] == 0x5C);
    assert(e[1] == m);
    assert(e.len() >= 2);
    assert(e.skip(2) =~= rest);
    assert(lex_quote(e) == prepend_byte(m, lex_quote(rest)));
}

pub(crate) proof fn lemma_quote_literal(b: u8, rest: Seq<u8>)
    requires
        b != 0x27,
        b != 0x5C,
    ensures
        lex_quote(seq![b] + rest) == prepend_byte(b, lex_quote(rest)),
{
    let e = seq![b] + rest;
    assert(e[0] == b);
    assert(e.drop_first() =~= rest);
    assert(lex_quote(e) == prepend_byte(b, lex_quote(rest)));
}

pub(crate) proof fn lemma_fish_unit(c: Char, st: bool, rest: Seq<u8>)
    requires
        classify(char_code(c)) == c,
    ensures
        lex_state(unit_emit(c, st) + rest, st) == prepend_byte(
            char_code(c),
            lex_state(rest, unit_state(c, st)),
        ),
{
    let lit = unit_literal(c);
    let st2 = unit_state(c, st);
    match c {
        Char::PrintableInert(ch) => {
            assert(ch != 0x27 && ch != 0x5C);
            if st {
                lemma_quote_literal(ch, rest);
            } else {
                lemma_plain_literal(ch, rest);
            }
            assert(unit_emit(c, st) =~= seq![ch]);
        },
        Char::Backslash => {
            if st {
                lemma_quote_escape_pair(0x5C, rest);
            } else {
                lemma_plain_escape_pair(0x5C, 0x5C, rest);
            }
            assert(unit_emit(c, st) =~= seq![0x5Cu8, 0x5Cu8]);
        },
        Char::SingleQuote => {
            if st {
                lemma_quote_escape_pair(0x27, rest);
            } else {
                lemma_plain_escape_pair(0x27, 0x27, rest);
            }
            assert(unit_emit(c, st) =~= seq![0x5Cu8, 0x27u8]);
        },
        Char::DoubleQuote => {
            if st {
                lemma_quote_literal(0x22, rest);
                assert(unit_emit(c, st) =~= seq![0x22u8]);
            } else {
                let e = unit_emit(c, st) + rest;
                assert(e[0] == 0x27);
                assert(e.drop_first() =~= seq![0x22u8] + rest);
                assert(lex_plain(e) == lex_quote(seq![0x22u8] + rest));
                lemma_quote_literal(0x22, rest);
            }
        },
        Char::Printable(ch) => {
            assert(ch != 0x27 && ch != 0x5C);
            if st {
                lemma_quote_literal(ch, rest);
                assert(unit_emit(c, st) =~= seq![ch]);
            } else {
                let e = unit_emit(c, st) + rest;
                assert(e[0] == 0x27);
                assert(e.drop_first() =~= seq![ch] + rest);
                assert(lex_plain(e) == lex_quote(seq![ch] + rest));
                lemma_quote_literal(ch, rest);
            }
        },
        _ => {
            // Must-be-outside units: a mnemonic pair or a hex escape.
            if st {
                let e = unit_emit(c, st) + rest;
                assert(e[0] == 0x27);
                assert(e.drop_first() =~= lit + rest);
                assert(lex_quote(e) == lex_plain(lit + rest));
            } else {
                assert(unit_emit(c, st) + rest =~= lit + rest);
            }
            match c {
                Char::Bell => lemma_plain_escape_pair(0x61, 0x07, rest),
                Char::Backspace => lemma_plain_escape_pair(0x62, 0x08, rest),
                Char::Escape => lemma_plain_escape_pair(0x65, 0x1B, rest),
                Char::FormFeed => lemma_plain_escape_pair(0x66, 0x0C, rest),
                Char::NewLine => lemma_plain_escape_pair(0x6E, 0x0A, rest),
                Char::CarriageReturn => lemma_plain_escape_pair(0x72, 0x0D, rest),
                Char::HorizontalTab => lemma_plain_escape_pair(0x74, 0x09, rest),
                Char::VerticalTab => lemma_plain_escape_pair(0x76, 0x0B, rest),
                Char::Control(ch) => lemma_plain_hex(ch, rest),
                Char::Delete => lemma_plain_hex(0x7F, rest),
                Char::Extended(ch) => lemma_plain_hex(ch, rest),
                _ => {
                    assert(false);
                },
            }
        },
    }
}

proof fn lemma_lex_emits(s: Seq<u8>, st: bool, rest: Seq<u8>)
    ensures
        lex_state(emits(classified(s), st) + rest, st) == (match lex_state(
            rest,
            state_after(classified(s), st),
        ) {
            Option::Some(t) => Option::Some(s + t),
            Option::None => Option::<Seq<u8>>::None,
        }),
    decreases s.len(),
{
    let cs = classified(s);
    if s.len() == 0 {
        assert(emits(cs, st) + rest =~= rest);
        assert(state_after(cs, st) == st);
        match lex_state(rest, st) {
            Option::Some(t) => {
                assert(s + t =~= t);
            },
            Option::None => {},
        }
    } else {
        let c = classify(s[0]);
        crate::ascii::lemma_classify_code(s[0]);
        assert(cs[0] == c);
        let st2 = unit_state(c, st);
        let s1 = s.drop_first();
        assert(cs.drop_first() =~= classified(s1));
        assert(emits(cs, st) == unit_emit(c, st) + emits(classified(s1), st2));
        assert(emits(cs, st) + rest =~= unit_emit(c, st) + (emits(classified(s1), st2) + rest));
        lemma_fish_unit(c, st, emits(classified(s1), st2) + rest);
        lemma_lex_emits(s1, st2, rest);
        assert(state_after(cs, st) == state_after(classified(s1), st2));
        match lex_state(rest, state_after(classified(s1), st2)) {
            Option::Some(t) => {
                assert(seq![s[0]] + (s1 + t) =~= s + t);
            },
            Option::None => {},
        }
    }
}

pub(crate) proof fn lemma_plain_inert(s: Seq<u8>)
    requires
        all_inert(s),
    ensures
        lex_plain(s) == Option::Some(s),
    decreases s.len(),
{
    if s.len() > 0 {
        assert(classify(s[0]) is PrintableInert);
        assert(s[0] != 0x27 && s[0] != 0x5C);
        assert(forall|i: int| 0 <= i < s.drop_first().len() ==> s.drop_first()[i] == s[i + 1]);
        lemma_plain_inert(s.drop_first());
        assert(seq![s[0]] + s.drop_first() =~= s);
    }
}

/// Round trip: for every byte string, reading the quoted word back with the
/// modeled fish parser yields exactly the original bytes — in particular,
/// quoting never leaves an unterminated quoted run.
pub proof fn lemma_round_trip(s: Seq<u8>)
    ensures
        lex_plain(quoted(s)) == Option::Some(s),
{
    if s.len() == 0 {
        let w = quoted(s);
        assert(w == seq![0x27u8, 0x27u8]);
        assert(w[0] == 0x27);
        assert(w.drop_first() =~= seq![0x27u8]);
        assert(lex_plain(w) == lex_quote(seq![0x27u8]));
        assert(seq![0x27u8][0] == 0x27);
        assert(seq![0x27u8].drop_first() =~= Seq::<u8>::empty());
        assert(lex_quote(seq![0x27u8]) == lex_plain(Seq::<u8>::empty()));
        assert(lex_plain(Seq::<u8>::empty()) == Option::Some(Seq::<u8>::empty()));
        assert(s =~= Seq::<u8>::empty());
    } else if all_inert(s) {
        lemma_plain_inert(s);
    } else {
        let cs = classified(s);
        let close: Seq<u8> = if state_after(cs, false) {
            seq![0x27u8]
        } else {
            Seq::<u8>::empty()
        };
        assert(quoted(s) == emits(cs, false) + close);
        lemma_lex_emits(s, false, close);
        if state_after(cs, false) {
            assert(close[0] == 0x27);
            assert(close.drop_first() =~= Seq::<u8>::empty());
            assert(lex_quote(close) == lex_plain(Seq::<u8>::empty()));
            assert(lex_plain(Seq::<u8>::empty()) == Option::Some(Seq::<u8>::empty()));
        } else {
            assert(lex_plain(close) == Option::Some(Seq::<u8>::empty()));
        }
        assert(s + Seq::<u8>::empty() =~= s);
    }
}


pub(crate) proof fn lemma_plain_literal_run(lit: Seq<u8>, rest: Seq<u8>)
    requires
        forall|i: int| 0 <= i < lit.len() ==> lit[i] != 0x27 && lit[i] != 0x5C,
    ensures
        lex_plain(lit + rest) == (match lex_plain(rest) {
            Option::Some(t) => Option::Some(lit + t),
            Option::None => Option::<Seq<u8>>::None,
        }),
    decreases lit.len(),
{
    if lit.len() == 0 {
        assert(lit + rest =~= rest);
        match lex_plain(rest) {
            Option::Some(t) => {
                assert(lit + t =~= t);
            },
            Option::None => {},
        }
    } else {
        let lit1 = lit.drop_first();
        assert(forall|i: int| 0 <= i < lit1.len() ==> lit1[i] == lit[i + 1]);
        assert(lit + rest =~= seq![lit[0]] + (lit1 + rest));
        lemma_plain_literal(lit[0], lit1 + rest);
        lemma_plain_literal_run(lit1, rest);
        match lex_plain(rest) {
            Option::Some(t) => {
                assert(seq![lit[0]] + (lit1 + t) =~= lit + t);
            },
            Option::None => {},
        }
    }
}

pub(crate) proof fn lemma_quote_literal_run(lit: Seq<u8>, rest: Seq<u8>)
    requires
        forall|i: int| 0 <= i < lit.len() ==> lit[i] != 0x27 && lit[i] != 0x5C,
    ensures
        lex_quote(lit + rest) == (match lex_quote(rest) {
            Option::Some(t) => Option::Some(lit + t),
            Option::None => Option::<Seq<u8>>::None,
        }),
    decreases lit.len(),
{
    if lit.len() == 0 {
        assert(lit + rest =~= rest);
        match lex_quote(rest) {
            Option::Some(t) => {
                assert(lit + t =~= t);
            },
            Option::None => {},
        }
    } else {
        let lit1 = lit.drop_first();
        assert(forall|i: int| 0 <= i < lit1.len() ==> lit1[i] == lit[i + 1]);
        assert(lit + rest =~= seq![lit[0]] + (lit1 + rest));
        lemma_quote_literal(lit[0], lit1 + rest);
        lemma_quote_literal_run(lit1, rest);
        match lex_quote(rest) {
            Option::Some(t) => {
                assert(seq![lit[0]] + (lit1 + t) =~= lit + t);
            },
            Option::None => {},
        }
    }
}

} // verus!
