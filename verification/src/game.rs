//! Game-wide definitions: the two player sides and the pawn budget.

use vstd::prelude::*;

verus! {

/// Upper bound on the number of pawns one side can field.
pub const MAX_PAWN_NUMBER: usize = 4;

/// One of the two players.  `Bottom` starts at the bottom edge of the
/// board and moves first; `Top` is the side the computer plays.
#[derive(Clone, Copy, PartialEq, Eq, Structural, Debug)]
pub enum PlayerSide {
    Bottom,
    Top,
}

impl PlayerSide {
    /// The opposing side.
    pub open spec fn spec_reverse(self) -> PlayerSide {
        match self {
            PlayerSide::Bottom => PlayerSide::Top,
            PlayerSide::Top => PlayerSide::Bottom,
        }
    }

    /// The opposing side; applying it twice gives the side back.
    #[verifier::when_used_as_spec(spec_reverse)]
    pub fn reverse(self) -> (r: PlayerSide)
        ensures
            r == self.spec_reverse(),
            r != self,
            r.spec_reverse() == self,
    {
        match self {
            PlayerSide::Bottom => PlayerSide::Top,
            PlayerSide::Top => PlayerSide::Bottom,
        }
    }
}

} // verus!
