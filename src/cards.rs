use vstd::prelude::*;

verus! {

/// The penalty cards one fencer received in one bout.
#[derive(Debug, Clone, Copy, PartialEq, Eq, Structural)]
pub struct Cards {
    pub yellow: u8,
    pub red: u8,
    pub group3red: u8,
    pub black: u8,
    pub passivity_yellow: u8,
    pub passivity_red: u8,
    pub passivity_black: u8,
}

impl Cards {
    /// A tally with every counter at zero.
    pub open spec fn zero() -> Cards {
        Cards {
            yellow: 0,
            red: 0,
            group3red: 0,
            black: 0,
            passivity_yellow: 0,
            passivity_red: 0,
            passivity_black: 0,
        }
    }
}

impl Default for Cards {
    fn default() -> (r: Cards)
        ensures
            r == Cards::zero(),
    {
        Cards {
            yellow: 0,
            red: 0,
            group3red: 0,
            black: 0,
            passivity_yellow: 0,
            passivity_red: 0,
            passivity_black: 0,
        }
    }
}

} // verus!
