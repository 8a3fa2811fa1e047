//! An append-only byte accumulator kept as a chain of buffers, so that
//! growing never moves bytes that were already written: appends go into the
//! newest buffer while it has room under the block size, and open a fresh
//! link otherwise. The chain reads back oldest-first.

use vstd::prelude::*;

use crate::util::extend_bytes;

verus! {

/// One block's worth of buffer: appends that fit below this stay in the
/// current link.
pub const CAP_MIN: usize = 4194304;

/// A chain of byte buffers: either a link holding the newest buffer and the
/// chain before it, or the empty end.
pub enum Chain {
    Link(Vec<u8>, Box<Chain>),
    End,
}

impl Chain {
    /// The bytes the whole chain holds, oldest first.
    pub open spec fn bytes(&self) -> Seq<u8>
        decreases self,
    {
        match self {
            Chain::Link(buffer, prev) => prev.bytes() + buffer@,
            Chain::End => Seq::<u8>::empty(),
        }
    }

    /// Append a byte slice, into the newest buffer if it has room under the
    /// block size, into a fresh link otherwise.
    pub fn extend(self, bytes: &[u8]) -> (r: Self)
        ensures
            r.bytes() == self.bytes() + bytes@,
    {
        let ghost s0 = self.bytes();
        match self {
            Chain::Link(mut buffer, prev) => {
                let ghost prevb = prev.bytes();
                let ghost bufb = buffer@;
                if bytes.len() <= CAP_MIN && buffer.len() <= CAP_MIN - bytes.len() {
                    extend_bytes(&mut buffer, bytes);
                    let r = Chain::Link(buffer, prev);
                    proof {
                        assert(r.bytes() =~= s0 + bytes@);
                    }
                    r
                } else {
                    let mut fresh: Vec<u8> = Vec::new();
                    extend_bytes(&mut fresh, bytes);
                    let r = Chain::Link(fresh, Box::new(Chain::Link(buffer, prev)));
                    proof {
                        assert(r.bytes() =~= s0 + bytes@);
                    }
                    r
                }
            },
            Chain::End => {
                let mut fresh: Vec<u8> = Vec::new();
                extend_bytes(&mut fresh, bytes);
                let r = Chain::Link(fresh, Box::new(Chain::End));
                proof {
                    assert(r.bytes() =~= s0 + bytes@);
                }
                r
            },
        }
    }

    /// Append one byte, into the newest buffer if it has room under the
    /// block size, into a fresh link otherwise.
    pub fn push(self, byte: u8) -> (r: Self)
        ensures
            r.bytes() == self.bytes().push(byte),
    {
        let ghost s0 = self.bytes();
        match self {
            Chain::Link(mut buffer, prev) => {
                if buffer.len() < CAP_MIN {
                    buffer.push(byte);
                    let r = Chain::Link(buffer, prev);
                    proof {
                        assert(r.bytes() =~= s0.push(byte));
                    }
                    r
                } else {
                    let mut fresh: Vec<u8> = Vec::new();
                    fresh.push(byte);
                    let r = Chain::Link(fresh, Box::new(Chain::Link(buffer, prev)));
                    proof {
                        assert(r.bytes() =~= s0.push(byte));
                    }
                    r
                }
            },
            Chain::End => {
                let mut fresh: Vec<u8> = Vec::new();
                fresh.push(byte);
                let r = Chain::Link(fresh, Box::new(Chain::End));
                proof {
                    assert(r.bytes() =~= s0.push(byte));
                }
                r
            },
        }
    }

    /// Write the whole chain, oldest bytes first, to the end of a buffer.
    pub fn write_to(&self, out: &mut Vec<u8>)
        ensures
            final(out)@ == old(out)@ + self.bytes(),
        decreases self,
    {
        match self {
            Chain::Link(buffer, prev) => {
                prev.write_to(out);
                extend_bytes(out, buffer.as_slice());
                proof {
                    assert(out@ =~= old(out)@ + self.bytes());
                }
            },
            Chain::End => {
                proof {
                    assert(out@ =~= old(out)@ + self.bytes());
                }
            },
        }
    }

    /// The whole chain as one contiguous vector, oldest bytes first.
    pub fn to_vec(&self) -> (r: Vec<u8>)
        ensures
            r@ == self.bytes(),
    {
        let mut out: Vec<u8> = Vec::new();
        self.write_to(&mut out);
        proof {
            assert(out@ =~= self.bytes());
        }
        out
    }
}

impl Default for Chain {
    /// The empty chain.
    fn default() -> (r: Self)
        ensures
            r.bytes() == Seq::<u8>::empty(),
    {
        Chain::End
    }
}

} // verus!
