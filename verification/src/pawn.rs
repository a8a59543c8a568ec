//! Pawns and the per-side bookkeeping array.

use vstd::prelude::*;
use crate::game::MAX_PAWN_NUMBER;
use crate::game::PlayerSide;

verus! {

/// A pawn on the board.  `table_index` is the slot this pawn occupies in
/// its owner's `PawnArray`; the board invariant keeps the two in step.
#[derive(Clone, Copy, PartialEq, Eq, Structural, Debug)]
pub struct Pawn {
    pub player: PlayerSide,
    pub table_index: usize,
}

/// A side's dense list of pawn locations: entries `[0, count)` are the
/// tile indices of that side's live pawns; entries beyond `count` carry
/// no meaning.  Removal swaps the last live entry into the freed slot, so
/// the live prefix never has holes.
#[derive(Clone, Copy, PartialEq, Eq, Debug)]
#[verifier::ext_equal]
pub struct PawnArray {
    pub tile_indexes: [usize; MAX_PAWN_NUMBER],
    pub count: usize,
}

impl PawnArray {
    /// An empty pawn list.
    pub fn new() -> (r: PawnArray)
        ensures
            r.count == 0,
            forall|k: int| 0 <= k < MAX_PAWN_NUMBER ==> r.tile_indexes@[k] == 0,
    {
        PawnArray { tile_indexes: [0; MAX_PAWN_NUMBER], count: 0 }
    }
}

} // verus!
