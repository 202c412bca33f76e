use vstd::prelude::*;

verus! {

/// A half-open interval `[start, stop)` of character offsets marking a
/// matched span inside whatever text buffer it currently indexes: the
/// source text while fragments are generated, the snippet's own text
/// after selection.
#[derive(Clone, Copy, Debug, PartialEq, Eq, Structural)]
pub struct HighlightSection {
    pub start: usize,
    pub stop: usize,
}

impl HighlightSection {
    pub fn new(start: usize, stop: usize) -> (r: HighlightSection)
        ensures
            r == (HighlightSection { start, stop }),
    {
        HighlightSection { start, stop }
    }

    /// Returns the bounds of the `HighlightSection`.
    pub fn bounds(&self) -> (r: (usize, usize))
        ensures
            r == (self.start, self.stop),
    {
        (self.start, self.stop)
    }
}

} // verus!
