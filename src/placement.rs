use vstd::prelude::*;

verus! {

/// A final place in a pool: held alone, or shared with others who ended
/// level.
#[derive(Debug, Clone, Copy, PartialEq, Eq, Structural)]
pub enum Placement {
    Absolute(usize),
    Tied(usize),
}

impl Placement {
    /// The place number.
    pub open spec fn number(&self) -> usize {
        match self {
            Placement::Absolute(p) => *p,
            Placement::Tied(p) => *p,
        }
    }

    pub fn inner(&self) -> (r: usize)
        ensures
            r == self.number(),
    {
        match self {
            Placement::Absolute(inner) => *inner,
            Placement::Tied(inner) => *inner,
        }
    }

    /// Marks the place as shared, keeping its number.
    pub fn to_tied(&mut self)
        ensures
            *final(self) == Placement::Tied(old(self).number()),
    {
        *self = Placement::Tied(self.inner());
    }
}

} // verus!
