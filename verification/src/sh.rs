//! Quote byte strings for use with `/bin/sh`, the POSIX Bourne shell (and
//! with Dash, Bash, and Z Shell, which accept the same quoted strings).
//!
//! This dialect has no escape syntax for arbitrary bytes: output is a
//! sequence of plain runs and single-quoted runs. Inert printables are
//! always emitted bare; metacharacters, control bytes, and high bytes are
//! reproduced verbatim inside single quotes; the single quote itself — the
//! one character single quotes cannot protect — closes any open quoted run
//! and is emitted as `\'`. At the end of the walk an open quoted run is
//! closed, so the output never contains an unterminated quoted region.
//!
//! Because bytes 0x80–0xFF are passed through raw, this dialect's output is
//! not in general valid UTF-8; callers that need text must validate at the
//! boundary.

use vstd::prelude::*;

use crate::ascii::all_inert;
use crate::ascii::char_code;
use crate::ascii::classified;
use crate::ascii::classify;
use crate::ascii::Char;
use crate::util::extend_bytes;
use crate::util::prepend_byte;
use crate::Quotable;

verus! {

/// The bytes one classified unit contributes, given whether the write
/// position is currently inside a single-quoted run.
pub open spec fn unit_emit(mode: Char, inside: bool) -> Seq<u8> {
    match mode {
        Char::PrintableInert(ch) => seq![ch],
        Char::SingleQuote => if inside {
            seq![0x27, 0x5C, 0x27]
        } else {
            seq![0x5C, 0x27]
        },
        _ => if inside {
            seq![char_code(mode)]
        } else {
            seq![0x27, char_code(mode)]
        },
    }
}

/// The quote state after one unit: inert printables leave it unchanged, a
/// single quote always leaves the write position outside quotes, and every
/// other unit leaves it inside.
pub open spec fn unit_state(mode: Char, inside: bool) -> bool {
    match mode {
        Char::PrintableInert(_) => inside,
        Char::SingleQuote => false,
        _ => true,
    }
}

/// The bytes of the whole walk, left to right, threading the quote state;
/// without the final closing quote.
pub open spec fn emits(s: Seq<Char>, inside: bool) -> Seq<u8>
    decreases s.len(),
{
    if s.len() == 0 {
        Seq::<u8>::empty()
    } else {
        unit_emit(s[0], inside) + emits(s.drop_first(), unit_state(s[0], inside))
    }
}

/// The quote state after the whole walk.
pub open spec fn state_after(s: Seq<Char>, inside: bool) -> bool
    decreases s.len(),
{
    if s.len() == 0 {
        inside
    } else {
        state_after(s.drop_first(), unit_state(s[0], inside))
    }
}

/// A whole quoted word: the walk's bytes, and a closing quote if the walk
/// ends inside a quoted run.
pub open spec fn escaped(s: Seq<Char>) -> Seq<u8> {
    emits(s, false) + (if state_after(s, false) {
        seq![0x27u8]
    } else {
        Seq::<u8>::empty()
    })
}

/// What quoting a byte string for `/bin/sh` returns: the empty-word literal
/// `''` for empty input, the input itself when every byte is inert, and the
/// walked word otherwise.
pub open spec fn quoted(s: Seq<u8>) -> Seq<u8> {
    if s.len() == 0 {
        seq![0x27, 0x27]
    } else if all_inert(s) {
        s
    } else {
        escaped(classified(s))
    }
}

/// Appending one unit to the classified sequence appends its emission, in
/// the state the walk had reached, and updates the final state accordingly.
pub proof fn lemma_emits_push(s: Seq<Char>, c: Char, st: bool)
    ensures
        emits(s.push(c), st) == emits(s, st) + unit_emit(c, state_after(s, st)),
        state_after(s.push(c), st) == unit_state(c, state_after(s, st)),
    decreases s.len(),
{
    if s.len() == 0 {
        assert(s.push(c)[0] == c);
        assert(s.push(c).drop_first() =~= Seq::<Char>::empty());
        assert(emits(s.push(c), st) == unit_emit(c, st) + emits(
            Seq::<Char>::empty(),
            unit_state(c, st),
        ));
        assert(emits(s.push(c), st) =~= emits(s, st) + unit_emit(c, state_after(s, st)));
        assert(state_after(s.push(c), st) == state_after(Seq::<Char>::empty(), unit_state(c, st)));
    } else {
        lemma_emits_push(s.drop_first(), c, unit_state(s[0], st));
        assert(s.push(c)[0] == s[0]);
        assert(s.push(c).drop_first() =~= s.drop_first().push(c));
        assert(emits(s.push(c), st) =~= emits(s, st) + unit_emit(c, state_after(s, st)));
        assert(state_after(s.push(c), st) == state_after(
            s.drop_first().push(c),
            unit_state(s[0], st),
        ));
        assert(state_after(s, st) == state_after(s.drop_first(), unit_state(s[0], st)));
    }
}

/// The three-way outcome of classifying an input: empty, all-inert, or a
/// classified sequence that needs the full encode walk.
pub enum Prepared {
    Empty,
    Inert,
    Escape(Vec<Char>),
}

/// Classify every byte, and decide whether any quoting is needed at all.
pub fn escape_prepare(sin: &[u8]) -> (r: Prepared)
    ensures
        (match r {
            Prepared::Empty => sin@.len() == 0,
            Prepared::Inert => sin@.len() > 0 && all_inert(sin@),
            Prepared::Escape(esc) => sin@.len() > 0 && !all_inert(sin@) && esc@ == classified(
                sin@,
            ),
        }),
{
    let mut esc: Vec<Char> = Vec::new();
    let mut inert = true;
    let mut i: usize = 0;
    while i < sin.len()
        invariant
            i <= sin@.len(),
            esc@.len() == i,
            forall|j: int| 0 <= j < i ==> esc@[j] == classify(sin@[j]),
            inert == (forall|j: int| 0 <= j < i ==> classify(sin@[j]) is PrintableInert),
        decreases sin@.len() - i,
    {
        let c = Char::from(sin[i]);
        if !c.is_inert() {
            inert = false;
        }
        esc.push(c);
        i = i + 1;
    }
    if esc.len() == 0 {
        Prepared::Empty
    } else if inert {
        Prepared::Inert
    } else {
        proof {
            assert(esc@ =~= classified(sin@));
        }
        Prepared::Escape(esc)
    }
}

fn push_unit(sout: &mut Vec<u8>, mode: Char, inside: bool) -> (r: bool)
    ensures
        final(sout)@ == old(sout)@ + unit_emit(mode, inside),
        r == unit_state(mode, inside),
{
    let r = match mode {
        Char::PrintableInert(ch) => {
            sout.push(ch);
            inside
        },
        Char::SingleQuote => {
            if inside {
                sout.push(0x27);
            }
            sout.push(0x5C);
            sout.push(0x27);
            false
        },
        _ => {
            if !inside {
                sout.push(0x27);
            }
            sout.push(mode.code());
            true
        },
    };
    proof {
        assert(sout@ =~= old(sout)@ + unit_emit(mode, inside));
    }
    r
}

/// Append the quoted word for the classified sequence, tracking the quote
/// state across the walk and closing any quoted run left open at the end.
pub fn escape_chars(esc: Vec<Char>, sout: &mut Vec<u8>)
    ensures
        final(sout)@ == old(sout)@ + escaped(esc@),
{
    let ghost sout0 = sout@;
    let mut inside = false;
    proof {
        assert(esc@.take(0) =~= Seq::<Char>::empty());
    }
    let mut i: usize = 0;
    while i < esc.len()
        invariant
            i <= esc@.len(),
            sout@ == sout0 + emits(esc@.take(i as int), false),
            inside == state_after(esc@.take(i as int), false),
        decreases esc@.len() - i,
    {
        let c = esc[i];
        inside = push_unit(sout, c, inside);
        proof {
            assert(esc@.take(i as int).push(esc@[i as int]) =~= esc@.take(i as int + 1));
            lemma_emits_push(esc@.take(i as int), esc@[i as int], false);
            assert(sout@ =~= sout0 + emits(esc@.take(i as int + 1), false));
        }
        i = i + 1;
    }
    proof {
        assert(esc@.take(esc@.len() as int) =~= esc@);
    }
    if inside {
        sout.push(0x27);
    }
    proof {
        assert(sout@ =~= sout0 + escaped(esc@));
    }
}

/// The Bourne/POSIX-family dialect.
#[derive(Debug, Clone, Copy)]
pub struct Sh;

impl Sh {
    /// Quote a string of bytes into a new `Vec<u8>`. Text input is treated
    /// as its UTF-8 bytes.
    pub fn quote_vec(s: Quotable<'_>) -> (r: Vec<u8>)
        ensures
            (match s {
                Quotable::Bytes(b) => r@ == quoted(b@),
                Quotable::Text(t) => r@ == quoted(vstd::utf8::encode_utf8(t@)),
            }),
    {
        let mut sout: Vec<u8> = Vec::new();
        Self::quote_into_vec(s, &mut sout);
        sout
    }

    /// Quote a string of bytes, appending the quoted word to an existing
    /// `Vec<u8>` and leaving the prior contents untouched.
    pub fn quote_into_vec(s: Quotable<'_>, sout: &mut Vec<u8>)
        ensures
            (match s {
                Quotable::Bytes(b) => final(sout)@ == old(sout)@ + quoted(b@),
                Quotable::Text(t) => final(sout)@ == old(sout)@ + quoted(
                    vstd::utf8::encode_utf8(t@),
                ),
            }),
    {
        let bytes: &[u8] = match s {
            Quotable::Bytes(b) => b,
            Quotable::Text(t) => t.as_bytes(),
        };
        match escape_prepare(bytes) {
            Prepared::Empty => {
                sout.push(0x27);
                sout.push(0x27);
                proof {
                    assert(sout@ =~= old(sout)@ + quoted(bytes@));
                }
            },
            Prepared::Inert => {
                extend_bytes(sout, bytes);
            },
            Prepared::Escape(esc) => {
                escape_chars(esc, sout);
            },
        }
    }
}


/// A model of how a POSIX shell reads back one quoted word: outside quotes
/// a backslash makes the next byte literal and a single quote opens a
/// quoted run; inside a quoted run every byte but the single quote is
/// literal. `None` marks a word the shell cannot finish reading — an
/// unterminated quoted run or a dangling backslash.
pub open spec fn lex(out: Seq<u8>, inside: bool) -> Option<Seq<u8>>
    decreases out.len(),
{
    if out.len() == 0 {
        if inside {
            Option::None
        } else {
            Option::Some(Seq::<u8>::empty())
        }
    } else if inside {
        if out[0] == 0x27 {
            lex(out.drop_first(), false)
        } else {
            prepend_byte(out[0], lex(out.drop_first(), true))
        }
    } else {
        if out[0] == 0x27 {
            lex(out.drop_first(), true)
        } else if out[0] == 0x5C {
            if out.len() < 2 {
                Option::None
            } else {
                prepend_byte(out[1], lex(out.skip(2), false))
            }
        } else {
            prepend_byte(out[0], lex(out.drop_first(), false))
        }
    }
}

proof fn lemma_lex_unit(c: Char, st: bool, rest: Seq<u8>)
    requires
        classify(char_code(c)) == c,
    ensures
        lex(unit_emit(c, st) + rest, st) == prepend_byte(
            char_code(c),
            lex(rest, unit_state(c, st)),
        ),
{
    let e = unit_emit(c, st) + rest;
    match c {
        Char::PrintableInert(ch) => {
            assert(ch != 0x27 && ch != 0x5C);
            assert(unit_emit(c, st) =~= seq![ch]);
            assert(e[0] == ch);
            assert(e.len() >= 1);
            assert(e.drop_first() =~= rest);
            assert(lex(e, st) == prepend_byte(ch, lex(e.drop_first(), st)));
            assert(lex(e, st) == prepend_byte(char_code(c), lex(rest, unit_state(c, st))));
        },
        Char::SingleQuote => {
            if st {
                assert(e[0] == 0x27);
                assert(e.drop_first() =~= seq![0x5Cu8, 0x27u8] + rest);
                assert((seq![0x5Cu8, 0x27u8] + rest)[0] == 0x5C);
                assert((seq![0x5Cu8, 0x27u8] + rest)[1] == 0x27);
                assert((seq![0x5Cu8, 0x27u8] + rest).skip(2) =~= rest);
                assert(lex(e, st) == lex(seq![0x5Cu8, 0x27u8] + rest, false));
                assert(lex(seq![0x5Cu8, 0x27u8] + rest, false) == prepend_byte(
                    0x27,
                    lex(rest, false),
                ));
            } else {
                assert(e[0] == 0x5C);
                assert(e[1] == 0x27);
                assert(e.skip(2) =~= rest);
                assert(lex(e, st) == prepend_byte(0x27, lex(rest, false)));
            }
        },
        _ => {
            let code = char_code(c);
            assert(code != 0x27);
            if st {
                assert(e[0] == code);
                assert(e.drop_first() =~= rest);
                assert(lex(e, st) == prepend_byte(code, lex(rest, true)));
            } else {
                assert(e[0] == 0x27);
                assert(e.drop_first() =~= seq![code] + rest);
                assert((seq![code] + rest)[0] == code);
                assert((seq![code] + rest).drop_first() =~= rest);
                assert(lex(e, st) == lex(seq![code] + rest, true));
                assert(lex(seq![code] + rest, true) == prepend_byte(code, lex(rest, true)));
            }
        },
    }
}

proof fn lemma_lex_emits(s: Seq<u8>, st: bool, rest: Seq<u8>)
    ensures
        lex(emits(classified(s), st) + rest, st) == (match lex(
            rest,
            state_after(classified(s), st),
        ) {
            Option::Some(t) => Option::Some(s + t),
            Option::None => Option::<Seq<u8>>::None,
        }),
    decreases s.len(),
{
    let cs = classified(s);
    if s.len() == 0 {
        assert(emits(cs, st) + rest =~= rest);
        assert(state_after(cs, st) == st);
        match lex(rest, st) {
            Option::Some(t) => {
                assert(s + t =~= t);
            },
            Option::None => {},
        }
    } else {
        let c = classify(s[0]);
        crate::ascii::lemma_classify_code(s[0]);
        assert(cs[0] == c);
        let st2 = unit_state(c, st);
        let s1 = s.drop_first();
        assert(cs.drop_first() =~= classified(s1));
        assert(emits(cs, st) == unit_emit(c, st) + emits(classified(s1), st2));
        assert(emits(cs, st) + rest =~= unit_emit(c, st) + (emits(classified(s1), st2) + rest));
        lemma_lex_unit(c, st, emits(classified(s1), st2) + rest);
        lemma_lex_emits(s1, st2, rest);
        assert(state_after(cs, st) == state_after(classified(s1), st2));
        match lex(rest, state_after(classified(s1), st2)) {
            Option::Some(t) => {
                assert(seq![s[0]] + (s1 + t) =~= s + t);
            },
            Option::None => {},
        }
    }
}

proof fn lemma_lex_inert(s: Seq<u8>)
    requires
        all_inert(s),
    ensures
        lex(s, false) == Option::Some(s),
    decreases s.len(),
{
    if s.len() > 0 {
        assert(classify(s[0]) is PrintableInert);
        assert(s[0] != 0x27 && s[0] != 0x5C);
        assert(forall|i: int| 0 <= i < s.drop_first().len() ==> s.drop_first()[i] == s[i + 1]);
        lemma_lex_inert(s.drop_first());
        assert(seq![s[0]] + s.drop_first() =~= s);
    }
}

/// Round trip: for every byte string, reading the quoted word back with the
/// modeled `/bin/sh` parser yields exactly the original bytes — in
/// particular, quoting never leaves an unterminated quoted run.
pub proof fn lemma_round_trip(s: Seq<u8>)
    ensures
        lex(quoted(s), false) == Option::Some(s),
{
    if s.len() == 0 {
        assert(quoted(s) == seq![0x27u8, 0x27u8]);
        assert(seq![0x27u8, 0x27u8][0] == 0x27);
        assert(seq![0x27u8, 0x27u8].drop_first() =~= seq![0x27u8]);
        assert(seq![0x27u8][0] == 0x27);
        assert(seq![0x27u8].drop_first() =~= Seq::<u8>::empty());
        assert(lex(quoted(s), false) == lex(seq![0x27u8], true));
        assert(lex(seq![0x27u8], true) == lex(Seq::<u8>::empty(), false));
        assert(lex(Seq::<u8>::empty(), false) == Option::Some(Seq::<u8>::empty()));
        assert(s =~= Seq::<u8>::empty());
    } else if all_inert(s) {
        lemma_lex_inert(s);
    } else {
        let cs = classified(s);
        let close: Seq<u8> = if state_after(cs, false) {
            seq![0x27u8]
        } else {
            Seq::<u8>::empty()
        };
        assert(quoted(s) == emits(cs, false) + close);
        lemma_lex_emits(s, false, close);
        if state_after(cs, false) {
            assert(close[0] == 0x27);
            assert(close.drop_first() =~= Seq::<u8>::empty());
            assert(lex(close, true) == lex(Seq::<u8>::empty(), false));
            assert(lex(Seq::<u8>::empty(), false) == Option::Some(Seq::<u8>::empty()));
        } else {
            assert(lex(close, false) == Option::Some(Seq::<u8>::empty()));
        }
        assert(s + Seq::<u8>::empty() =~= s);
    }
}

} // verus!
