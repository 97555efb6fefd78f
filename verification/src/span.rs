//! Places in the source text.

use vstd::prelude::*;

verus! {

/// A half-open range of byte offsets into the source text.
#[derive(Clone, Copy, Debug, PartialEq, Eq, Structural)]
pub struct Span {
    pub lo: usize,
    pub hi: usize,
}

impl Span {
    /// The span that stands for "no position".
    pub open spec fn none() -> Span {
        Span { lo: 0, hi: 0 }
    }

    pub fn new(lo: usize, hi: usize) -> (s: Span)
        ensures
            s == (Span { lo, hi }),
    {
        Span { lo, hi }
    }

    pub fn dummy() -> (s: Span)
        ensures
            s == Span::none(),
    {
        Span { lo: 0, hi: 0 }
    }
}

} // verus!
