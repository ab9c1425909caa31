//! Round-robin fencing pools: pairings, bouts, pool sheets, rankings and the
//! identity-preserving serialized form of a pool.
pub mod bout;
pub mod bout_map;
pub mod cards;
pub mod codec;
pub mod error;
pub mod fencer;
pub mod orders;
pub mod placement;
pub mod pools;
pub mod results;
