//! Quote byte strings for use with fish.
//!
//! fish's grammar switches between an inside-single-quotes context (literal
//! passthrough; quote and backslash need a backslash escape) and an
//! outside-quotes context (backslash mnemonics and hex escapes are legal;
//! bare metacharacters are not). Each classified unit carries a placement
//! intent — must be outside, must be inside, or indifferent — and the
//! encoder closes or opens a quote only when the intent demands it; at the
//! end of the walk any open quote is closed. Because a quoted run is opened
//! only when a must-be-inside unit is about to be emitted, and closed only
//! after at least one such unit, no empty `''` pair ever appears inside a
//! word; the only empty pair is the empty-word literal itself.

use vstd::prelude::*;

pub mod bytes;
pub mod text;

use crate::util::extend_bytes;
use crate::Quotable;

verus! {

/// Where a unit's emitted bytes must sit relative to single quotes:
/// required outside, required inside, or indifferent (emitted into whichever
/// context is already active, never forcing a transition).
#[derive(Clone, Copy, PartialEq, Eq, Structural)]
pub enum Placement {
    Inside,
    Outside,
    Whatever,
}

/// The fish dialect.
#[derive(Debug, Clone, Copy)]
pub struct Fish;

impl Fish {
    /// Quote a string of bytes into a new `Vec<u8>`.
    pub fn quote_vec(s: Quotable<'_>) -> (r: Vec<u8>)
        ensures
            (match s {
                Quotable::Bytes(b) => r@ == bytes::quoted(b@),
                Quotable::Text(t) => r@ == text::quoted(t@),
            }),
    {
        let mut sout: Vec<u8> = Vec::new();
        Self::quote_into_vec(s, &mut sout);
        sout
    }

    /// Quote a string of bytes, appending the quoted word to an existing
    /// `Vec<u8>` and leaving the prior contents untouched.
    pub fn quote_into_vec(s: Quotable<'_>, sout: &mut Vec<u8>)
        ensures
            (match s {
                Quotable::Bytes(b) => final(sout)@ == old(sout)@ + bytes::quoted(b@),
                Quotable::Text(t) => final(sout)@ == old(sout)@ + text::quoted(t@),
            }),
    {
        match s {
            Quotable::Bytes(b) => match bytes::escape_prepare(b) {
                bytes::Prepared::Empty => {
                    sout.push(0x27);
                    sout.push(0x27);
                    proof {
                        assert(sout@ =~= old(sout)@ + bytes::quoted(b@));
                    }
                },
                bytes::Prepared::Inert => {
                    extend_bytes(sout, b);
                },
                bytes::Prepared::Escape(esc) => {
                    bytes::escape_chars(esc, sout);
                },
            },
            Quotable::Text(t) => match text::escape_prepare(t) {
                text::Prepared::Empty => {
                    sout.push(0x27);
                    sout.push(0x27);
                    proof {
                        assert(sout@ =~= old(sout)@ + text::quoted(t@));
                    }
                },
                text::Prepared::Inert => {
                    extend_bytes(sout, t.as_bytes());
                },
                text::Prepared::Escape(esc) => {
                    text::escape_chars(esc, sout);
                },
            },
        }
    }
}

} // verus!
