//! The turn flow around the board: the fixed starting layout, what a
//! click on a tile does to the current selection, and win detection.
//! The presentation layer translates input into tile indices and hands
//! them here; every decision is made on the board value alone.

use vstd::prelude::*;
use crate::board::BoardState;
use crate::board::move_spec;
use crate::board::plays_of;
use crate::board::player_at;
use crate::board::vec_contains;
use crate::board::wf;
use crate::game::PlayerSide;
use crate::grid::NUMBER_OF_TILES;
use crate::grid::TileCoord;
use crate::grid::index_xy;

verus! {

broadcast use vstd::array::group_array_axioms, vstd::seq_lib::group_seq_lib_default;

/// Which side occupies each tile of the fixed starting layout.
pub open spec fn start_player_at(i: int) -> Option<PlayerSide> {
    if i == index_xy(3, 0) || i == index_xy(4, 0) || i == index_xy(5, 0) || i == index_xy(4, 1) {
        Some(PlayerSide::Top)
    } else if i == index_xy(3, 3) || i == index_xy(4, 4) || i == index_xy(5, 3) {
        Some(PlayerSide::Bottom)
    } else {
        None
    }
}

/// The reference starting position: four `Top` pawns along the top
/// edge, three `Bottom` pawns along the bottom edge, `Bottom` to move.
pub fn starting_board() -> (b: BoardState)
    ensures
        wf(b),
        b.current_player == PlayerSide::Bottom,
        b.top_pawns.count == 4,
        b.bottom_pawns.count == 3,
        b.top_pawns.tile_indexes@.subrange(0, 4) == seq![3usize, 4usize, 5usize, 13usize],
        b.bottom_pawns.tile_indexes@.subrange(0, 3) == seq![30usize, 38usize, 32usize],
        forall|i: int| 0 <= i < NUMBER_OF_TILES ==> player_at(b, i) == start_player_at(i),
{
    let mut b = BoardState::new();
    let _ = b.add_pawn(TileCoord { x: 3, y: 0 }, PlayerSide::Top);
    let _ = b.add_pawn(TileCoord { x: 4, y: 0 }, PlayerSide::Top);
    let _ = b.add_pawn(TileCoord { x: 5, y: 0 }, PlayerSide::Top);
    let _ = b.add_pawn(TileCoord { x: 4, y: 1 }, PlayerSide::Top);

    let _ = b.add_pawn(TileCoord { x: 3, y: 3 }, PlayerSide::Bottom);
    let _ = b.add_pawn(TileCoord { x: 4, y: 4 }, PlayerSide::Bottom);
    let _ = b.add_pawn(TileCoord { x: 5, y: 3 }, PlayerSide::Bottom);
    b
}

/// The winner, if the position has one: a side without pawns has lost.
/// Callers poll this after every applied move.
pub fn winner_of(board: &BoardState) -> (r: Option<PlayerSide>)
    ensures
        r == (if board.top_pawns.count == 0 {
            Some(PlayerSide::Bottom)
        } else if board.bottom_pawns.count == 0 {
            Some(PlayerSide::Top)
        } else {
            None::<PlayerSide>
        }),
{
    if board.top_pawns.count == 0 {
        Some(PlayerSide::Bottom)
    } else if board.bottom_pawns.count == 0 {
        Some(PlayerSide::Top)
    } else {
        None
    }
}

/// How many humans play.  In a one-player game the computer commands
/// the `Top` side.
#[derive(Clone, Copy, PartialEq, Eq, Structural, Debug)]
pub enum PlayerOption {
    OnePlayer,
    TwoPlayer,
}

/// Whether the computer is to move on `board`: only in a one-player
/// game, and only for the `Top` side.
pub fn computer_to_move(board: &BoardState, option: PlayerOption) -> (r: bool)
    ensures
        r == (board.current_player == PlayerSide::Top && option == PlayerOption::OnePlayer),
{
    board.current_player == PlayerSide::Top && option == PlayerOption::OnePlayer
}

/// What a click on a tile did to the current selection.
#[derive(Debug)]
pub enum ClickOutcome {
    /// The clicked tile holds a pawn of the side to move: it is now the
    /// selection, and these are its legal destinations.
    Selected(Vec<usize>),
    /// The clicked tile was a legal destination of the selection: the
    /// move was applied and this is the successor position.
    Moved(BoardState),
    /// The click selects nothing; any selection is dropped.
    Cleared,
}

/// The click applies a move: a tile is selected, the clicked tile is a
/// different one, and it is a legal destination of the selection.
pub open spec fn click_applies_move(b: BoardState, selected: Option<usize>, clicked: usize) -> bool {
    selected matches Some(s) && clicked != s && plays_of(
        b,
        s as int,
        b.current_player,
    ).contains(clicked)
}

/// Resolves a click on the tile at `clicked` while `selected` is the
/// currently selected tile, if any: a click on a legal destination of
/// the selection applies the move; otherwise a click on an own pawn
/// (re)selects it, and any other click clears the selection.
pub fn handle_tile_click(board: &BoardState, selected: Option<usize>, clicked: usize) -> (r:
    ClickOutcome)
    requires
        wf(*board),
        clicked < NUMBER_OF_TILES,
        selected matches Some(s) ==> s < NUMBER_OF_TILES && player_at(*board, s as int) == Some(
            board.current_player,
        ),
    ensures
        click_applies_move(*board, selected, clicked) ==> r == ClickOutcome::Moved(
            move_spec(*board, selected->Some_0 as int, clicked as int),
        ),
        !click_applies_move(*board, selected, clicked) && player_at(*board, clicked as int)
            == Some(board.current_player) ==> (r matches ClickOutcome::Selected(v) && v@
            == plays_of(*board, clicked as int, board.current_player)),
        !click_applies_move(*board, selected, clicked) && player_at(*board, clicked as int)
            != Some(board.current_player) ==> r == ClickOutcome::Cleared,
{
    let me = board.current_player;
    if let Some(s) = selected {
        if clicked != s {
            let plays = board.get_possible_plays(s, me);
            if vec_contains(&plays, clicked) {
                proof {
                    let pl = plays_of(*board, s as int, me);
                    let w = choose|w: int| 0 <= w < pl.len() && pl[w] == clicked;
                    assert(player_at(*board, clicked as int) != Some(me));
                }
                return ClickOutcome::Moved(board.make_move(s, clicked));
            }
        }
    }

    match board.tiles[clicked] {
        Some(p) => {
            if p.player == me {
                ClickOutcome::Selected(board.get_possible_plays(clicked, me))
            } else {
                ClickOutcome::Cleared
            }
        },
        None => ClickOutcome::Cleared,
    }
}

} // verus!
