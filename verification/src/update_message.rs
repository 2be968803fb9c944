//! The request by which a validator ships a level update of the
//! aggregation for a block.

use crate::contribution::LevelUpdate;
use vstd::prelude::*;

verus! {

/// The number that names this kind of request on the wire.
pub const TYPE_ID: u16 = 124;

/// How many requests of this kind a peer may send within one time window.
pub const MAX_REQUESTS: u32 = 500;

/// The length of the time window, in milliseconds.
pub const TIME_WINDOW_MILLIS: u64 = 500;

/// A level update of the aggregation for the block of number
/// `block_number`.
#[derive(Debug)]
pub struct TendermintUpdate {
    pub message: LevelUpdate,
    pub block_number: u32,
}

} // verus!
