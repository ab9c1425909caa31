use vstd::prelude::*;

verus! {

/// What can go wrong while building, updating, finishing or reloading a pool.
#[derive(Debug, Clone, PartialEq, Eq)]
pub enum PoolSheetError {
    /// No bout order exists for the number of fencers.
    UnsupportedParticipantCount,
    /// A pair or bout was given a fencer outside it, or one fencer twice.
    InvalidBout,
    /// The pool holds no bout for the pair.
    NoBoutFound,
    /// The pool still has bouts without a winner, at these positions.
    PoolNotComplete(Vec<usize>),
    /// A serialized bout names a fencer key that the fencer table lacks.
    InvalidReference,
}

/// The bout order table has no order for the number of fencers.
#[derive(Debug, Clone, PartialEq, Eq, Structural)]
pub enum PoolOrderError {
    UnsupportedParticipantCount,
}

} // verus!
