//! Which cell a pointer press picked.
use vstd::prelude::*;

verus! {

/// The cell under the primary and under the secondary button, for each
/// button that is down over the board.
#[derive(Clone, Copy, Debug, PartialEq, Eq)]
pub struct Clicked {
    pub primary: Option<(usize, usize)>,
    pub secondary: Option<(usize, usize)>,
}

impl Clicked {
    pub fn new(primary: Option<(usize, usize)>, secondary: Option<(usize, usize)>) -> (r: Self)
        ensures
            r.primary == primary,
            r.secondary == secondary,
    {
        Clicked { primary, secondary }
    }
}

} // verus!
