//! Laws that hold across the dialects: quoting an all-inert string returns
//! it unchanged, quoting the empty string returns the empty-word literal,
//! quoting anything that needs escaping returns something strictly longer
//! than the input (so it is never mistaken for the raw input), and the
//! state-tracking encoders open exactly as many quoted runs as they close.

use vstd::prelude::*;

use crate::ascii::all_inert;
use crate::ascii::classified;
use crate::ascii::Char;
use crate::bash;
use crate::fish;
use crate::fish::Placement;
use crate::quoted_bytes;
use crate::quoted_text;
use crate::sh;
use crate::utf8::all_inert_text;
use crate::utf8::classify_char;
use crate::Shell;

verus! {

/// True when some unit of the classified sequence is not an inert
/// printable, i.e. when the walk has real work to do.
pub open spec fn some_unit_active(s: Seq<Char>) -> bool {
    exists|i: int| 0 <= i < s.len() && !(s[i] is PrintableInert)
}

/// If `bytes` contains only inert characters, quoting returns `bytes`
/// itself, for every dialect.
pub proof fn lemma_quote_inert_identity(shell: Shell, s: Seq<u8>)
    requires
        s.len() > 0,
        all_inert(s),
    ensures
        quoted_bytes(shell, s) == s,
{
}

/// If a text contains only inert characters, quoting returns its UTF-8
/// bytes (the text itself) unchanged, for every dialect.
pub proof fn lemma_quote_inert_identity_text(shell: Shell, t: Seq<char>)
    requires
        t.len() > 0,
        all_inert_text(t),
    ensures
        quoted_text(shell, t) == vstd::utf8::encode_utf8(t),
{
    crate::utf8::lemma_inert_text_utf8(t);
}

/// Quoting the empty string returns the dialect's canonical empty-word
/// literal: two adjacent single quotes, for all three dialects, for both
/// input kinds.
pub proof fn lemma_quote_empty(shell: Shell)
    ensures
        quoted_bytes(shell, Seq::<u8>::empty()) == seq![0x27u8, 0x27u8],
        quoted_text(shell, Seq::<char>::empty()) == seq![0x27u8, 0x27u8],
{
    assert(vstd::utf8::encode_utf8(Seq::<char>::empty()) =~= Seq::<u8>::empty());
    assert(quoted_bytes(shell, Seq::<u8>::empty()) =~= seq![0x27u8, 0x27u8]);
    assert(quoted_text(shell, Seq::<char>::empty()) =~= seq![0x27u8, 0x27u8]);
}

proof fn lemma_sh_walk_len(s: Seq<Char>, st: bool)
    ensures
        sh::emits(s, st).len() + (if sh::state_after(s, st) {
            1int
        } else {
            0
        }) >= s.len() + (if st {
            1int
        } else if some_unit_active(s) {
            1int
        } else {
            0
        }),
    decreases s.len(),
{
    if s.len() > 0 {
        let c = s[0];
        let st2 = sh::unit_state(c, st);
        lemma_sh_walk_len(s.drop_first(), st2);
        if c is PrintableInert {
            if !st && some_unit_active(s) {
                let i = choose|i: int| 0 <= i < s.len() && !(s[i] is PrintableInert);
                assert(s.drop_first()[i - 1] == s[i]);
                assert(some_unit_active(s.drop_first()));
            }
        }
    }
}

proof fn lemma_fish_walk_len(s: Seq<Char>, st: bool)
    ensures
        fish::bytes::emits(s, st).len() + (if fish::bytes::state_after(s, st) {
            1int
        } else {
            0
        }) >= s.len() + (if st {
            1int
        } else if some_unit_active(s) {
            1int
        } else {
            0
        }),
    decreases s.len(),
{
    if s.len() > 0 {
        let c = s[0];
        let st2 = fish::bytes::unit_state(c, st);
        lemma_fish_walk_len(s.drop_first(), st2);
        assert(fish::bytes::unit_literal(c).len() >= 1);
        if c is PrintableInert {
            if !st && some_unit_active(s) {
                let i = choose|i: int| 0 <= i < s.len() && !(s[i] is PrintableInert);
                assert(s.drop_first()[i - 1] == s[i]);
                assert(some_unit_active(s.drop_first()));
            }
        } else {
            assert(!(fish::bytes::placement(c) is Whatever) || fish::bytes::unit_literal(
                c,
            ).len() >= 2);
        }
    }
}

/// A classified string with an active unit has one at some index.
proof fn lemma_not_all_inert_active(s: Seq<u8>)
    requires
        !all_inert(s),
    ensures
        some_unit_active(classified(s)),
{
    let i = choose|i: int| 0 <= i < s.len() && !(crate::ascii::classify(s[i]) is PrintableInert);
    assert(!(classified(s)[i] is PrintableInert));
}

/// A string that needs escaping never rounds to raw: for every dialect, the
/// quoted form of a non-empty input with at least one non-inert byte is
/// strictly longer than the input, so mixed punctuation (or anything else
/// that is not all-inert) always triggers the escaping path and never comes
/// back verbatim.
pub proof fn lemma_quote_escaping_grows(shell: Shell, s: Seq<u8>)
    requires
        s.len() > 0,
        !all_inert(s),
    ensures
        quoted_bytes(shell, s).len() > s.len(),
        quoted_bytes(shell, s) != s,
{
    let cs = classified(s);
    assert(cs.len() == s.len());
    lemma_not_all_inert_active(s);
    match shell {
        Shell::Bash => {
            bash::bytes::lemma_escape_seq_len(cs);
        },
        Shell::Fish => {
            lemma_fish_walk_len(cs, false);
        },
        Shell::Sh => {
            lemma_sh_walk_len(cs, false);
        },
    }
}

/// How many quoted runs one unit of the Bourne walk opens.
pub open spec fn sh_unit_opens(c: Char, inside: bool) -> int {
    match c {
        Char::PrintableInert(_) => 0,
        Char::SingleQuote => 0,
        _ => if inside {
            0
        } else {
            1
        },
    }
}

/// How many quoted runs one unit of the Bourne walk closes.
pub open spec fn sh_unit_closes(c: Char, inside: bool) -> int {
    match c {
        Char::PrintableInert(_) => 0,
        Char::SingleQuote => if inside {
            1
        } else {
            0
        },
        _ => 0,
    }
}

/// Quote-opening transitions across the whole Bourne walk.
pub open spec fn sh_opens(s: Seq<Char>, inside: bool) -> int
    decreases s.len(),
{
    if s.len() == 0 {
        0
    } else {
        sh_unit_opens(s[0], inside) + sh_opens(s.drop_first(), sh::unit_state(s[0], inside))
    }
}

/// Quote-closing transitions across the whole Bourne walk, not counting the
/// final close.
pub open spec fn sh_closes(s: Seq<Char>, inside: bool) -> int
    decreases s.len(),
{
    if s.len() == 0 {
        0
    } else {
        sh_unit_closes(s[0], inside) + sh_closes(s.drop_first(), sh::unit_state(s[0], inside))
    }
}

proof fn lemma_sh_balance_aux(s: Seq<Char>, st: bool)
    ensures
        sh_closes(s, st) - sh_opens(s, st) == (if st {
            1int
        } else {
            0
        }) - (if sh::state_after(s, st) {
            1int
        } else {
            0
        }),
    decreases s.len(),
{
    if s.len() > 0 {
        lemma_sh_balance_aux(s.drop_first(), sh::unit_state(s[0], st));
    }
}

/// No unterminated quoting in the Bourne walk: over any input, the number
/// of quote-opening transitions equals the number of quote-closing
/// transitions in the final output, the close that ends a still-open run
/// included.
pub proof fn lemma_sh_quotes_balanced(s: Seq<u8>)
    ensures
        sh_opens(classified(s), false) == sh_closes(classified(s), false) + (if sh::state_after(
            classified(s),
            false,
        ) {
            1int
        } else {
            0
        }),
{
    lemma_sh_balance_aux(classified(s), false);
}

/// How many quoted runs one unit of the fish walk opens.
pub open spec fn fish_unit_opens(c: Char, inside: bool) -> int {
    if !inside && fish::bytes::placement(c) is Inside {
        1
    } else {
        0
    }
}

/// How many quoted runs one unit of the fish walk closes.
pub open spec fn fish_unit_closes(c: Char, inside: bool) -> int {
    if inside && fish::bytes::placement(c) is Outside {
        1
    } else {
        0
    }
}

/// Quote-opening transitions across the whole fish walk.
pub open spec fn fish_opens(s: Seq<Char>, inside: bool) -> int
    decreases s.len(),
{
    if s.len() == 0 {
        0
    } else {
        fish_unit_opens(s[0], inside) + fish_opens(
            s.drop_first(),
            fish::bytes::unit_state(s[0], inside),
        )
    }
}

/// Quote-closing transitions across the whole fish walk, not counting the
/// final close.
pub open spec fn fish_closes(s: Seq<Char>, inside: bool) -> int
    decreases s.len(),
{
    if s.len() == 0 {
        0
    } else {
        fish_unit_closes(s[0], inside) + fish_closes(
            s.drop_first(),
            fish::bytes::unit_state(s[0], inside),
        )
    }
}

proof fn lemma_fish_balance_aux(s: Seq<Char>, st: bool)
    ensures
        fish_closes(s, st) - fish_opens(s, st) == (if st {
            1int
        } else {
            0
        }) - (if fish::bytes::state_after(s, st) {
            1int
        } else {
            0
        }),
    decreases s.len(),
{
    if s.len() > 0 {
        lemma_fish_balance_aux(s.drop_first(), fish::bytes::unit_state(s[0], st));
    }
}

/// No unterminated quoting in the fish walk: over any input, the number of
/// quote-opening transitions equals the number of quote-closing transitions
/// in the final output, the close that ends a still-open run included.
pub proof fn lemma_fish_quotes_balanced(s: Seq<u8>)
    ensures
        fish_opens(classified(s), false) == fish_closes(classified(s), false) + (
        if fish::bytes::state_after(classified(s), false) {
            1int
        } else {
            0
        }),
{
    lemma_fish_balance_aux(classified(s), false);
}

/// True when some scalar of the text is ASCII and not an inert printable:
/// a unit that forces escaping work beyond re-encoding.
pub open spec fn some_ascii_active(t: Seq<char>) -> bool {
    exists|i: int|
        0 <= i < t.len() && !(classify_char(t[i]) is PrintableInert) && !(classify_char(t[i])
            is Utf8)
}

proof fn lemma_bash_text_walk_len(t: Seq<char>)
    ensures
        bash::text::escape_seq(crate::utf8::classified_text(t)).len() >= vstd::utf8::encode_utf8(
            t,
        ).len(),
    decreases t.len(),
{
    if t.len() > 0 {
        let c = t[0];
        let cs = crate::utf8::classified_text(t);
        assert(cs[0] == classify_char(c));
        assert(cs.drop_first() =~= crate::utf8::classified_text(t.drop_first()));
        lemma_bash_text_walk_len(t.drop_first());
        vstd::utf8::char_is_scalar(c);
        if classify_char(c) is Utf8 {
            assert(bash::text::unit_escape(cs[0]).len() == vstd::utf8::encode_scalar(
                c as u32,
            ).len());
        } else {
            assert(c as u32 <= 0x7F);
            assert(vstd::utf8::encode_scalar(c as u32).len() == 1);
            assert(bash::text::unit_escape(cs[0]).len() >= 1);
        }
    }
}

proof fn lemma_fish_text_walk_len(t: Seq<char>, st: bool)
    ensures
        fish::text::emits(crate::utf8::classified_text(t), st).len() + (
        if fish::text::state_after(crate::utf8::classified_text(t), st) {
            1int
        } else {
            0
        }) >= vstd::utf8::encode_utf8(t).len() + (if st {
            1int
        } else if some_ascii_active(t) {
            1int
        } else {
            0
        }),
    decreases t.len(),
{
    if t.len() > 0 {
        let c = t[0];
        let cs = crate::utf8::classified_text(t);
        let tc = classify_char(c);
        assert(cs[0] == tc);
        let st2 = fish::text::unit_state(tc, st);
        assert(cs.drop_first() =~= crate::utf8::classified_text(t.drop_first()));
        lemma_fish_text_walk_len(t.drop_first(), st2);
        vstd::utf8::char_is_scalar(c);
        if tc is Utf8 {
            assert(fish::text::unit_literal(tc).len() == vstd::utf8::encode_scalar(
                c as u32,
            ).len());
            assert(vstd::utf8::encode_scalar(c as u32).len() >= 1);
            if !st && some_ascii_active(t) {
                let i = choose|i: int|
                    0 <= i < t.len() && !(classify_char(t[i]) is PrintableInert) && !(classify_char(
                        t[i],
                    ) is Utf8);
                assert(t.drop_first()[i - 1] == t[i]);
                assert(some_ascii_active(t.drop_first()));
            }
        } else {
            assert(c as u32 <= 0x7F);
            assert(vstd::utf8::encode_scalar(c as u32).len() == 1);
            assert(fish::text::unit_literal(tc).len() >= 1);
            if tc is PrintableInert {
                if !st && some_ascii_active(t) {
                    let i = choose|i: int|
                        0 <= i < t.len() && !(classify_char(t[i]) is PrintableInert) && !(
                        classify_char(t[i]) is Utf8);
                    assert(t.drop_first()[i - 1] == t[i]);
                    assert(some_ascii_active(t.drop_first()));
                }
            } else {
                assert(!(fish::text::placement(tc) is Whatever) || fish::text::unit_literal(
                    tc,
                ).len() >= 2);
            }
        }
    }
}

proof fn lemma_active_text_utf8(t: Seq<char>)
    requires
        some_ascii_active(t),
    ensures
        !all_inert(vstd::utf8::encode_utf8(t)),
    decreases t.len(),
{
    let c = t[0];
    let tc = classify_char(c);
    let e = vstd::utf8::encode_utf8(t);
    vstd::utf8::char_is_scalar(c);
    if !(tc is PrintableInert) && !(tc is Utf8) {
        let u = c as u32;
        assert(u <= 0x7F);
        assert(u & 0x7F == u) by (bit_vector)
            requires
                u <= 0x7F,
        ;
        assert(vstd::utf8::encode_scalar(u) =~= seq![(u & 0x7F) as u8]);
        assert(e[0] == (u & 0x7F) as u8);
        assert(!(crate::ascii::classify(e[0]) is PrintableInert));
    } else {
        let i = choose|i: int|
            0 <= i < t.len() && !(classify_char(t[i]) is PrintableInert) && !(classify_char(t[i])
                is Utf8);
        assert(i >= 1);
        assert(t.drop_first()[i - 1] == t[i]);
        assert(some_ascii_active(t.drop_first()));
        lemma_active_text_utf8(t.drop_first());
        let sc = vstd::utf8::encode_scalar(c as u32);
        let tail = vstd::utf8::encode_utf8(t.drop_first());
        assert(e == sc + tail);
        let j = choose|j: int|
            0 <= j < tail.len() && !(crate::ascii::classify(tail[j]) is PrintableInert);
        assert(e[j + sc.len()] == tail[j]);
        assert(!(crate::ascii::classify(e[j + sc.len()]) is PrintableInert));
    }
}

/// The text-path form of the never-rounds-to-raw law for the Bash family:
/// any non-empty text that is not all-inert quotes to something strictly
/// longer than its own UTF-8 bytes, so it never comes back verbatim.
pub proof fn lemma_bash_text_escaping_grows(t: Seq<char>)
    requires
        t.len() > 0,
        !all_inert_text(t),
    ensures
        quoted_text(Shell::Bash, t).len() > vstd::utf8::encode_utf8(t).len(),
        quoted_text(Shell::Bash, t) != vstd::utf8::encode_utf8(t),
{
    lemma_bash_text_walk_len(t);
}

/// The text-path form of the never-rounds-to-raw law for every dialect,
/// for texts with at least one non-inert ASCII scalar — punctuation-only
/// strings in particular. (The hypothesis matters for fish: a text of
/// nothing but non-ASCII scalars is emitted verbatim there, since its UTF-8
/// bytes need no escaping in either quoting context.)
pub proof fn lemma_quote_escaping_grows_text(shell: Shell, t: Seq<char>)
    requires
        t.len() > 0,
        some_ascii_active(t),
    ensures
        quoted_text(shell, t).len() > vstd::utf8::encode_utf8(t).len(),
        quoted_text(shell, t) != vstd::utf8::encode_utf8(t),
{
    let i = choose|i: int|
        0 <= i < t.len() && !(classify_char(t[i]) is PrintableInert) && !(classify_char(t[i])
            is Utf8);
    assert(!all_inert_text(t));
    match shell {
        Shell::Bash => {
            lemma_bash_text_walk_len(t);
        },
        Shell::Fish => {
            lemma_fish_text_walk_len(t, false);
        },
        Shell::Sh => {
            lemma_active_text_utf8(t);
            let e = vstd::utf8::encode_utf8(t);
            assert(e.len() > 0);
            lemma_not_all_inert_active(e);
            lemma_sh_walk_len(classified(e), false);
        },
    }
}


/// Round trip at the dispatch level: for every dialect and every byte
/// string, reading the quoted word back with the dialect's modeled shell
/// parser yields exactly the original bytes.
pub proof fn lemma_quote_round_trip(shell: Shell, s: Seq<u8>)
    ensures
        (match shell {
            Shell::Bash => bash::bytes::lex_plain(quoted_bytes(shell, s)) == Option::Some(s),
            Shell::Fish => fish::bytes::lex_plain(quoted_bytes(shell, s)) == Option::Some(s),
            Shell::Sh => sh::lex(quoted_bytes(shell, s), false) == Option::Some(s),
        }),
{
    match shell {
        Shell::Bash => bash::bytes::lemma_round_trip(s),
        Shell::Fish => fish::bytes::lemma_round_trip(s),
        Shell::Sh => sh::lemma_round_trip(s),
    }
}

/// Round trip at the dispatch level, for text: for every dialect, reading
/// the quoted word back yields exactly the text's UTF-8 bytes.
pub proof fn lemma_quote_round_trip_text(shell: Shell, t: Seq<char>)
    ensures
        (match shell {
            Shell::Bash => bash::bytes::lex_plain(quoted_text(shell, t)) == Option::Some(
                vstd::utf8::encode_utf8(t),
            ),
            Shell::Fish => fish::bytes::lex_plain(quoted_text(shell, t)) == Option::Some(
                vstd::utf8::encode_utf8(t),
            ),
            Shell::Sh => sh::lex(quoted_text(shell, t), false) == Option::Some(
                vstd::utf8::encode_utf8(t),
            ),
        }),
{
    match shell {
        Shell::Bash => bash::text::lemma_round_trip_text(t),
        Shell::Fish => fish::text::lemma_round_trip_text(t),
        Shell::Sh => sh::lemma_round_trip(vstd::utf8::encode_utf8(t)),
    }
}

} // verus!
