//! Classifier for Unicode scalar values: ASCII is categorized exactly as in
//! [`crate::ascii`], while any scalar at or above 0x80 is kept as a literal
//! code point for the dialect encoders to re-encode as UTF-8 at emission
//! time.

use vstd::prelude::*;

use crate::ascii::BEL;
use crate::ascii::BS;
use crate::ascii::CR;
use crate::ascii::DEL;
use crate::ascii::ESC;
use crate::ascii::FF;
use crate::ascii::LF;
use crate::ascii::TAB;
use crate::ascii::VT;

verus! {

/// The category of a single Unicode scalar value: the ASCII taxonomy of
/// [`crate::ascii::Char`], with every non-ASCII scalar kept whole.
#[derive(Clone, Copy, PartialEq, Eq, Structural)]
pub enum Char {
    Bell,
    Backspace,
    Escape,
    FormFeed,
    NewLine,
    CarriageReturn,
    HorizontalTab,
    VerticalTab,
    Control(u8),
    Backslash,
    SingleQuote,
    DoubleQuote,
    Delete,
    PrintableInert(u8),
    Printable(u8),
    Utf8(char),
}

/// The category of any Unicode scalar value. Total: every `char` falls in
/// exactly one category.
pub open spec fn classify_char(c: char) -> Char {
    if c as u32 > 0x7F {
        Char::Utf8(c)
    } else {
        let ch = (c as u32) as u8;
        if ch == BEL {
            Char::Bell
        } else if ch == BS {
            Char::Backspace
        } else if ch == ESC {
            Char::Escape
        } else if ch == FF {
            Char::FormFeed
        } else if ch == LF {
            Char::NewLine
        } else if ch == CR {
            Char::CarriageReturn
        } else if ch == TAB {
            Char::HorizontalTab
        } else if ch == VT {
            Char::VerticalTab
        } else if ch <= 0x06 || (0x0E <= ch && ch <= 0x1A) || (0x1C <= ch && ch <= 0x1F) {
            Char::Control(ch)
        } else if ch == 0x5C {
            Char::Backslash
        } else if ch == 0x27 {
            Char::SingleQuote
        } else if ch == 0x22 {
            Char::DoubleQuote
        } else if ch == DEL {
            Char::Delete
        } else if crate::ascii::is_inert_byte(ch) {
            Char::PrintableInert(ch)
        } else {
            Char::Printable(ch)
        }
    }
}

impl Char {
    /// Classify one Unicode scalar value.
    pub fn from(c: char) -> (r: Char)
        ensures
            r == classify_char(c),
    {
        let u = c as u32;
        if u > 0x7F {
            Char::Utf8(c)
        } else {
            let ch = u as u8;
            if ch == BEL {
                Char::Bell
            } else if ch == BS {
                Char::Backspace
            } else if ch == ESC {
                Char::Escape
            } else if ch == FF {
                Char::FormFeed
            } else if ch == LF {
                Char::NewLine
            } else if ch == CR {
                Char::CarriageReturn
            } else if ch == TAB {
                Char::HorizontalTab
            } else if ch == VT {
                Char::VerticalTab
            } else if ch <= 0x06 || (0x0E <= ch && ch <= 0x1A) || (0x1C <= ch && ch <= 0x1F) {
                Char::Control(ch)
            } else if ch == 0x5C {
                Char::Backslash
            } else if ch == 0x27 {
                Char::SingleQuote
            } else if ch == 0x22 {
                Char::DoubleQuote
            } else if ch == DEL {
                Char::Delete
            } else if (0x61 <= ch && ch <= 0x7A) || (0x41 <= ch && ch <= 0x5A)
                || (0x30 <= ch && ch <= 0x39) || ch == 0x2C || ch == 0x2E || ch == 0x2F
                || ch == 0x5F || ch == 0x2D {
                Char::PrintableInert(ch)
            } else {
                Char::Printable(ch)
            }
        }
    }

    /// True only for the inert printables.
    pub fn is_inert(&self) -> (r: bool)
        ensures
            r == (*self is PrintableInert),
    {
        matches!(self, Char::PrintableInert(_))
    }
}

/// The classified form of a whole text, scalar for scalar.
pub open spec fn classified_text(t: Seq<char>) -> Seq<Char> {
    Seq::new(t.len(), |i: int| classify_char(t[i]))
}

/// True when every scalar of the text is inert.
pub open spec fn all_inert_text(t: Seq<char>) -> bool {
    forall|i: int| 0 <= i < t.len() ==> classify_char(t[i]) is PrintableInert
}

/// Append the UTF-8 encoding of one scalar value to a buffer.
pub(crate) fn push_utf8(sout: &mut Vec<u8>, c: char)
    ensures
        final(sout)@ == old(sout)@ + vstd::utf8::encode_scalar(c as u32),
{
    proof {
        vstd::utf8::char_is_scalar(c);
        let gu: u32 = c as u32;
        assert((gu >> 6) & 0x1F < 256 && (gu >> 6) & 0x3F < 256 && gu & 0x3F < 256 && (gu >> 12)
            & 0x0F < 256 && (gu >> 12) & 0x3F < 256 && (gu >> 18) & 0x7 < 256) by (bit_vector);
    }
    let u = c as u32;
    if u <= 0x7F {
        sout.push(u as u8);
        proof {
            assert(u & 0x7F == u) by (bit_vector)
                requires
                    u <= 0x7F,
            ;
            assert(vstd::utf8::encode_scalar(u) =~= seq![vstd::utf8::leading_byte_width_1(u)]);
            assert(sout@ =~= old(sout)@ + vstd::utf8::encode_scalar(c as u32));
        }
    } else if u <= 0x7FF {
        sout.push(0xC0 | ((u >> 6) & 0x1F) as u8);
        sout.push(0x80 | (u & 0x3F) as u8);
        proof {
            assert(vstd::utf8::encode_scalar(u) =~= seq![
                vstd::utf8::leading_byte_width_2(u),
                vstd::utf8::last_continuation_byte(u),
            ]);
            assert(sout@ =~= old(sout)@ + vstd::utf8::encode_scalar(c as u32));
        }
    } else if u <= 0xFFFF {
        sout.push(0xE0 | ((u >> 12) & 0x0F) as u8);
        sout.push(0x80 | ((u >> 6) & 0x3F) as u8);
        sout.push(0x80 | (u & 0x3F) as u8);
        proof {
            assert(vstd::utf8::encode_scalar(u) =~= seq![
                vstd::utf8::leading_byte_width_3(u),
                vstd::utf8::second_last_continuation_byte(u),
                vstd::utf8::last_continuation_byte(u),
            ]);
            assert(sout@ =~= old(sout)@ + vstd::utf8::encode_scalar(c as u32));
        }
    } else {
        sout.push(0xF0 | ((u >> 18) & 0x7) as u8);
        sout.push(0x80 | ((u >> 12) & 0x3F) as u8);
        sout.push(0x80 | ((u >> 6) & 0x3F) as u8);
        sout.push(0x80 | (u & 0x3F) as u8);
        proof {
            assert(vstd::utf8::encode_scalar(u) =~= seq![
                vstd::utf8::leading_byte_width_4(u),
                vstd::utf8::third_last_continuation_byte(u),
                vstd::utf8::second_last_continuation_byte(u),
                vstd::utf8::last_continuation_byte(u),
            ]);
            assert(sout@ =~= old(sout)@ + vstd::utf8::encode_scalar(c as u32));
        }
    }
}

/// An all-inert text is a sequence of ASCII bytes: its UTF-8 encoding has
/// one inert byte per scalar.
pub proof fn lemma_inert_text_utf8(t: Seq<char>)
    requires
        all_inert_text(t),
    ensures
        vstd::utf8::encode_utf8(t).len() == t.len(),
        crate::ascii::all_inert(vstd::utf8::encode_utf8(t)),
    decreases t.len(),
{
    if t.len() > 0 {
        assert(classify_char(t[0]) is PrintableInert);
        let u = t[0] as u32;
        assert(u <= 0x7F);
        assert(u & 0x7F == u) by (bit_vector)
            requires
                u <= 0x7F,
        ;
        assert(vstd::utf8::encode_scalar(u) =~= seq![(u & 0x7F) as u8]);
        assert(forall|i: int| 0 <= i < t.drop_first().len() ==> t.drop_first()[i] == t[i + 1]);
        lemma_inert_text_utf8(t.drop_first());
        let e = vstd::utf8::encode_utf8(t);
        assert(e =~= seq![(u & 0x7F) as u8] + vstd::utf8::encode_utf8(t.drop_first()));
        assert(crate::ascii::classify(e[0]) is PrintableInert);
        assert(forall|i: int|
            1 <= i < e.len() ==> e[i] == vstd::utf8::encode_utf8(t.drop_first())[i - 1]);
    }
}

/// Every byte of the UTF-8 encoding of a non-ASCII scalar is a high byte,
/// so none of them collides with the quoting grammars' special characters.
pub proof fn lemma_scalar_bytes_high(c: char)
    requires
        c as u32 > 0x7F,
    ensures
        vstd::utf8::encode_scalar(c as u32).len() >= 2,
        forall|i: int|
            0 <= i < vstd::utf8::encode_scalar(c as u32).len() ==> #[trigger] vstd::utf8::encode_scalar(
                c as u32,
            )[i] >= 0x80,
{
    vstd::utf8::char_is_scalar(c);
    let u = c as u32;
    let a1: u8 = ((u >> 6) & 0x1F) as u8;
    let a2: u8 = ((u >> 12) & 0x0F) as u8;
    let a3: u8 = ((u >> 18) & 0x7) as u8;
    let b1: u8 = (u & 0x3F) as u8;
    let b2: u8 = ((u >> 6) & 0x3F) as u8;
    let b3: u8 = ((u >> 12) & 0x3F) as u8;
    assert(0xC0 | a1 >= 0x80 && 0xE0 | a2 >= 0x80 && 0xF0 | a3 >= 0x80 && 0x80 | b1 >= 0x80 && 0x80
        | b2 >= 0x80 && 0x80 | b3 >= 0x80) by (bit_vector);
    let e = vstd::utf8::encode_scalar(u);
    if vstd::utf8::has_width_2_encoding(u) {
        assert(e =~= seq![0xC0 | a1, 0x80 | b1]);
        assert(e[0] >= 0x80 && e[1] >= 0x80);
    } else if vstd::utf8::has_width_3_encoding(u) {
        assert(e =~= seq![0xE0 | a2, 0x80 | b2, 0x80 | b1]);
        assert(e[0] >= 0x80 && e[1] >= 0x80 && e[2] >= 0x80);
    } else {
        assert(e =~= seq![0xF0 | a3, 0x80 | b3, 0x80 | b2, 0x80 | b1]);
        assert(e[0] >= 0x80 && e[1] >= 0x80 && e[2] >= 0x80 && e[3] >= 0x80);
    }
}

} // verus!
