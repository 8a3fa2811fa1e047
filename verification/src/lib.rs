//! Quote byte strings for use as single words in scripts for `/bin/sh`,
//! Bash/Zsh, and fish, so that the target shell's own parser expands each
//! word back into exactly the original bytes.

use vstd::prelude::*;

pub mod ascii;
pub mod bash;
pub mod chain;
pub mod fish;
pub mod laws;
pub mod sh;
pub mod utf8;
pub mod util;

pub use bash::Bash;
pub use chain::Chain;
pub use fish::Fish;
pub use sh::Sh;

verus! {

/// A string of bytes that can be quoted/escaped: either raw bytes, or text
/// whose non-ASCII scalar values are kept as Unicode code points until a
/// dialect decides how to emit them.
#[derive(Clone, Copy)]
pub enum Quotable<'a> {
    Bytes(&'a [u8]),
    Text(&'a str),
}

impl<'a> Quotable<'a> {
    /// Wrap a byte slice.
    pub fn from_bytes(source: &'a [u8]) -> (r: Quotable<'a>)
        ensures
            r == Quotable::Bytes(source),
    {
        Quotable::Bytes(source)
    }

    /// Wrap a text slice.
    pub fn from_text(source: &'a str) -> (r: Quotable<'a>)
        ensures
            r == Quotable::Text(source),
    {
        Quotable::Text(source)
    }
}

/// Dash accepts the same quoted/escaped strings as `/bin/sh` — on many
/// systems, `dash` is `/bin/sh` — hence this is an alias for [`Sh`].
pub type Dash = sh::Sh;

/// Zsh accepts the same quoted/escaped strings as Bash, hence this is an
/// alias for [`Bash`].
pub type Zsh = bash::Bash;

/// The supported shell dialects.
#[derive(Clone, Copy, PartialEq, Eq, Structural)]
pub enum Shell {
    Bash,
    Fish,
    Sh,
}

/// What quoting a byte string returns, per dialect.
pub open spec fn quoted_bytes(shell: Shell, s: Seq<u8>) -> Seq<u8> {
    match shell {
        Shell::Bash => bash::bytes::quoted(s),
        Shell::Fish => fish::bytes::quoted(s),
        Shell::Sh => sh::quoted(s),
    }
}

/// What quoting a text returns, per dialect. The Bourne dialect works byte
/// by byte, so text reaches it as its UTF-8 bytes.
pub open spec fn quoted_text(shell: Shell, t: Seq<char>) -> Seq<u8> {
    match shell {
        Shell::Bash => bash::text::quoted(t),
        Shell::Fish => fish::text::quoted(t),
        Shell::Sh => sh::quoted(vstd::utf8::encode_utf8(t)),
    }
}

/// Quote a string of bytes for the given dialect into a new `Vec<u8>`.
pub fn quote(shell: Shell, s: Quotable<'_>) -> (r: Vec<u8>)
    ensures
        (match s {
            Quotable::Bytes(b) => r@ == quoted_bytes(shell, b@),
            Quotable::Text(t) => r@ == quoted_text(shell, t@),
        }),
{
    match shell {
        Shell::Bash => Bash::quote_vec(s),
        Shell::Fish => Fish::quote_vec(s),
        Shell::Sh => Sh::quote_vec(s),
    }
}

/// Quote a string of bytes for the given dialect, appending the quoted word
/// to an existing `Vec<u8>` and leaving the prior contents untouched.
pub fn quote_into(shell: Shell, s: Quotable<'_>, sout: &mut Vec<u8>)
    ensures
        (match s {
            Quotable::Bytes(b) => final(sout)@ == old(sout)@ + quoted_bytes(shell, b@),
            Quotable::Text(t) => final(sout)@ == old(sout)@ + quoted_text(shell, t@),
        }),
{
    match shell {
        Shell::Bash => Bash::quote_into_vec(s, sout),
        Shell::Fish => Fish::quote_into_vec(s, sout),
        Shell::Sh => Sh::quote_into_vec(s, sout),
    }
}

} // verus!
