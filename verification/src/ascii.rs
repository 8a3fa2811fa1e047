//! Classifier for bytes in extended ASCII: control codes, shell
//! metacharacters, printable characters, and extended (high) bytes.

use vstd::prelude::*;

verus! {

pub const BEL: u8 = 0x07;
pub const BS: u8 = 0x08;
pub const TAB: u8 = 0x09;
pub const LF: u8 = 0x0A;
pub const VT: u8 = 0x0B;
pub const FF: u8 = 0x0C;
pub const CR: u8 = 0x0D;
pub const ESC: u8 = 0x1B;
pub const DEL: u8 = 0x7F;

/// The category of a single byte, as the quoting grammars care about it:
/// control codes with a dedicated backslash mnemonic, other control codes,
/// the structural quoting characters themselves, inert printables that never
/// need quoting, shell metacharacters that are only safe inside quotes, and
/// extended (high) bytes.
#[derive(Clone, Copy, PartialEq, Eq, Structural)]
pub enum Char {
    Bell,
    Backspace,
    Escape,
    FormFeed,
    NewLine,
    CarriageReturn,
    HorizontalTab,
    VerticalTab,
    Control(u8),
    Backslash,
    SingleQuote,
    DoubleQuote,
    Delete,
    PrintableInert(u8),
    Printable(u8),
    Extended(u8),
}

/// The letters, digits, and "safe" punctuation (`, . / _ -`) that never need
/// quoting in any of the supported shells.
pub open spec fn is_inert_byte(ch: u8) -> bool {
    ||| (0x61 <= ch && ch <= 0x7A)
    ||| (0x41 <= ch && ch <= 0x5A)
    ||| (0x30 <= ch && ch <= 0x39)
    ||| ch == 0x2C
    ||| ch == 0x2E
    ||| ch == 0x2F
    ||| ch == 0x5F
    ||| ch == 0x2D
}

/// The category of each of the 256 byte values. Total: every byte falls in
/// exactly one category.
pub open spec fn classify(ch: u8) -> Char {
    if ch == BEL {
        Char::Bell
    } else if ch == BS {
        Char::Backspace
    } else if ch == ESC {
        Char::Escape
    } else if ch == FF {
        Char::FormFeed
    } else if ch == LF {
        Char::NewLine
    } else if ch == CR {
        Char::CarriageReturn
    } else if ch == TAB {
        Char::HorizontalTab
    } else if ch == VT {
        Char::VerticalTab
    } else if ch <= 0x06 || (0x0E <= ch && ch <= 0x1A) || (0x1C <= ch && ch <= 0x1F) {
        Char::Control(ch)
    } else if ch == 0x5C {
        Char::Backslash
    } else if ch == 0x27 {
        Char::SingleQuote
    } else if ch == 0x22 {
        Char::DoubleQuote
    } else if ch == DEL {
        Char::Delete
    } else if is_inert_byte(ch) {
        Char::PrintableInert(ch)
    } else if ch >= 0x80 {
        Char::Extended(ch)
    } else {
        Char::Printable(ch)
    }
}

/// The byte a category stands for: the inverse of `classify`.
pub open spec fn char_code(c: Char) -> u8 {
    match c {
        Char::Bell => BEL,
        Char::Backspace => BS,
        Char::Escape => ESC,
        Char::FormFeed => FF,
        Char::NewLine => LF,
        Char::CarriageReturn => CR,
        Char::HorizontalTab => TAB,
        Char::VerticalTab => VT,
        Char::Control(ch) => ch,
        Char::Backslash => 0x5C,
        Char::SingleQuote => 0x27,
        Char::DoubleQuote => 0x22,
        Char::Delete => DEL,
        Char::PrintableInert(ch) => ch,
        Char::Printable(ch) => ch,
        Char::Extended(ch) => ch,
    }
}

/// Classification is lossless: reading the byte back from its category gives
/// the byte that was classified.
pub proof fn lemma_classify_code(ch: u8)
    ensures
        char_code(classify(ch)) == ch,
{
}

impl Char {
    /// Classify one byte.
    pub fn from(ch: u8) -> (r: Char)
        ensures
            r == classify(ch),
    {
        if ch == BEL {
            Char::Bell
        } else if ch == BS {
            Char::Backspace
        } else if ch == ESC {
            Char::Escape
        } else if ch == FF {
            Char::FormFeed
        } else if ch == LF {
            Char::NewLine
        } else if ch == CR {
            Char::CarriageReturn
        } else if ch == TAB {
            Char::HorizontalTab
        } else if ch == VT {
            Char::VerticalTab
        } else if ch <= 0x06 || (0x0E <= ch && ch <= 0x1A) || (0x1C <= ch && ch <= 0x1F) {
            Char::Control(ch)
        } else if ch == 0x5C {
            Char::Backslash
        } else if ch == 0x27 {
            Char::SingleQuote
        } else if ch == 0x22 {
            Char::DoubleQuote
        } else if ch == DEL {
            Char::Delete
        } else if (0x61 <= ch && ch <= 0x7A) || (0x41 <= ch && ch <= 0x5A)
            || (0x30 <= ch && ch <= 0x39) || ch == 0x2C || ch == 0x2E || ch == 0x2F
            || ch == 0x5F || ch == 0x2D {
            Char::PrintableInert(ch)
        } else if ch >= 0x80 {
            Char::Extended(ch)
        } else {
            Char::Printable(ch)
        }
    }

    /// True only for the inert printables: the bytes that never trigger
    /// quoting on their own.
    pub fn is_inert(&self) -> (r: bool)
        ensures
            r == (*self is PrintableInert),
    {
        matches!(self, Char::PrintableInert(_))
    }

    /// The byte this category stands for.
    pub fn code(&self) -> (r: u8)
        ensures
            r == char_code(*self),
    {
        match *self {
            Char::Bell => BEL,
            Char::Backspace => BS,
            Char::Escape => ESC,
            Char::FormFeed => FF,
            Char::NewLine => LF,
            Char::CarriageReturn => CR,
            Char::HorizontalTab => TAB,
            Char::VerticalTab => VT,
            Char::Control(ch) => ch,
            Char::Backslash => 0x5C,
            Char::SingleQuote => 0x27,
            Char::DoubleQuote => 0x22,
            Char::Delete => DEL,
            Char::PrintableInert(ch) => ch,
            Char::Printable(ch) => ch,
            Char::Extended(ch) => ch,
        }
    }
}

/// The classified form of a whole byte string, unit for unit.
pub open spec fn classified(s: Seq<u8>) -> Seq<Char> {
    Seq::new(s.len(), |i: int| classify(s[i]))
}

/// True when every byte of the string is inert.
pub open spec fn all_inert(s: Seq<u8>) -> bool {
    forall|i: int| 0 <= i < s.len() ==> classify(s[i]) is PrintableInert
}

} // verus!
