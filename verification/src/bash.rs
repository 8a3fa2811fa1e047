//! Quote byte strings for use with Bash, the GNU Bourne-Again Shell, and
//! with Z Shell.
//!
//! Output is either the input itself (when no escaping is necessary), the
//! empty-word literal `''`, or a single ANSI-C-style quoted word like
//! `$'foo\nbar'`: named controls become backslash mnemonics (`\a \b \e \f
//! \n \r \t \v`), other control bytes, delete, and high bytes become `\xHH`
//! hex escapes, backslash and single quote get fixed escapes, and everything
//! else is emitted literally.
//!
//! Note: it is possible to encode NUL this way (`$'\x00'`), but Bash itself
//! may truncate or drop the rest of the string after that point. That is a
//! property of the target interpreter, preserved here as documented
//! behavior.

use vstd::prelude::*;

pub mod bytes;
pub mod text;

use crate::util::extend_bytes;
use crate::Quotable;

verus! {

/// The Bash-family dialect.
#[derive(Debug, Clone, Copy)]
pub struct Bash;

impl Bash {
    /// Quote a string of bytes into a new `Vec<u8>`.
    pub fn quote_vec(s: Quotable<'_>) -> (r: Vec<u8>)
        ensures
            (match s {
                Quotable::Bytes(b) => r@ == bytes::quoted(b@),
                Quotable::Text(t) => r@ == text::quoted(t@),
            }),
    {
        let mut sout: Vec<u8> = Vec::new();
        Self::quote_into_vec(s, &mut sout);
        sout
    }

    /// Quote a string of bytes, appending the quoted word to an existing
    /// `Vec<u8>` and leaving the prior contents untouched.
    pub fn quote_into_vec(s: Quotable<'_>, sout: &mut Vec<u8>)
        ensures
            (match s {
                Quotable::Bytes(b) => final(sout)@ == old(sout)@ + bytes::quoted(b@),
                Quotable::Text(t) => final(sout)@ == old(sout)@ + text::quoted(t@),
            }),
    {
        match s {
            Quotable::Bytes(b) => match bytes::escape_prepare(b) {
                bytes::Prepared::Empty => {
                    sout.push(0x27);
                    sout.push(0x27);
                    proof {
                        assert(sout@ =~= old(sout)@ + bytes::quoted(b@));
                    }
                },
                bytes::Prepared::Inert => {
                    extend_bytes(sout, b);
                },
                bytes::Prepared::Escape(esc) => {
                    bytes::escape_chars(esc, sout);
                },
            },
            Quotable::Text(t) => match text::escape_prepare(t) {
                text::Prepared::Empty => {
                    sout.push(0x27);
                    sout.push(0x27);
                    proof {
                        assert(sout@ =~= old(sout)@ + text::quoted(t@));
                    }
                },
                text::Prepared::Inert => {
                    extend_bytes(sout, t.as_bytes());
                },
                text::Prepared::Escape(esc) => {
                    text::escape_chars(esc, sout);
                },
            },
        }
    }
}

} // verus!
