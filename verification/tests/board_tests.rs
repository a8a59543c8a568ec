use octochess::board::AddPawnError;
use octochess::board::BoardState;
use octochess::game::PlayerSide;
use octochess::grid::NUMBER_OF_TILES;
use octochess::grid::TileCoord;
use octochess::pawn::PawnArray;

/// Checks the pawn-array density invariant on both sides: the live
/// prefix of each side's list names exactly the tiles that side holds,
/// without duplicates, and each pawn's `table_index` points back at its
/// slot.
fn assert_density_invariant(board: &BoardState) {
    for (side, pa) in [
        (PlayerSide::Top, &board.top_pawns),
        (PlayerSide::Bottom, &board.bottom_pawns),
    ] {
        let mut on_board = 0;
        for i in 0..NUMBER_OF_TILES {
            if let Some(p) = board.tiles[i] {
                if p.player == side {
                    on_board += 1;
                    assert!(p.table_index < pa.count);
                    assert_eq!(pa.tile_indexes[p.table_index], i);
                }
            }
        }
        assert_eq!(pa.count, on_board);
        for k in 0..pa.count {
            let t = pa.tile_indexes[k];
            assert!(t < NUMBER_OF_TILES);
            let p = board.tiles[t].expect("live entry names an occupied tile");
            assert_eq!(p.player, side);
            assert_eq!(p.table_index, k);
            for k2 in 0..k {
                assert_ne!(pa.tile_indexes[k2], t);
            }
        }
    }
}

#[test]
fn new_board_is_empty() {
    let board = BoardState::new();
    assert_eq!(board.current_player, PlayerSide::Bottom);
    assert_eq!(board.top_pawns.count, 0);
    assert_eq!(board.bottom_pawns.count, 0);
    for i in 0..NUMBER_OF_TILES {
        assert!(board.tiles[i].is_none());
    }
}

#[test]
fn pawn_array_new_is_empty() {
    let pa = PawnArray::new();
    assert_eq!(pa.count, 0);
}

#[test]
fn add_pawn_places_and_registers() {
    let mut board = BoardState::new();
    let r = board.add_pawn(TileCoord { x: 3, y: 0 }, PlayerSide::Top);
    assert_eq!(r, Ok(()));
    let p = board.tiles[3].expect("tile holds the new pawn");
    assert_eq!(p.player, PlayerSide::Top);
    assert_eq!(p.table_index, 0);
    assert_eq!(board.top_pawns.count, 1);
    assert_eq!(board.top_pawns.tile_indexes[0], 3);
    assert_eq!(board.bottom_pawns.count, 0);
    assert_density_invariant(&board);
}

#[test]
fn add_pawn_rejects_invalid_coordinate() {
    let mut board = BoardState::new();
    let r = board.add_pawn(TileCoord { x: 9, y: 0 }, PlayerSide::Top);
    assert_eq!(r, Err(AddPawnError::InvalidCoordinate));
    // an octagon slot on the capping row denotes no tile either
    let r = board.add_pawn(TileCoord { x: 1, y: 4 }, PlayerSide::Top);
    assert_eq!(r, Err(AddPawnError::InvalidCoordinate));
    assert_eq!(board.top_pawns.count, 0);
}

#[test]
fn add_pawn_rejects_occupied_tile() {
    let mut board = BoardState::new();
    assert_eq!(board.add_pawn(TileCoord { x: 3, y: 0 }, PlayerSide::Top), Ok(()));
    let r = board.add_pawn(TileCoord { x: 3, y: 0 }, PlayerSide::Bottom);
    assert_eq!(r, Err(AddPawnError::OccupiedTile));
    assert_eq!(board.top_pawns.count, 1);
    assert_eq!(board.bottom_pawns.count, 0);
}

#[test]
fn possible_moves_quad_center() {
    let board = BoardState::new();
    // Quad tile at (4, 2): both lateral neighbours, both diagonals a row down
    assert_eq!(board.get_possible_moves(22), vec![23, 21, 14, 12]);
}

#[test]
fn possible_moves_quad_corner() {
    let board = BoardState::new();
    // Quad tile at (0, 0): only the right-hand neighbour exists
    assert_eq!(board.get_possible_moves(0), vec![1]);
}

#[test]
fn possible_moves_quad_last_row() {
    let board = BoardState::new();
    // tile 37 sits on the capping row at (2, 4): a Quad, whose lateral
    // slots hold no tiles, leaving the two diagonals a row down
    assert_eq!(board.get_possible_moves(37), vec![30, 28]);
}

#[test]
fn possible_moves_octo_center() {
    let board = BoardState::new();
    // Octo tile at (3, 2): two-apart laterals, vertical, and diagonals
    assert_eq!(board.get_possible_moves(21), vec![23, 19, 30, 12, 22, 20, 31, 29]);
}

#[test]
fn possible_moves_octo_edge() {
    let board = BoardState::new();
    // Octo tile at (1, 0): candidates left of the board are dropped
    assert_eq!(board.get_possible_moves(1), vec![3, 10, 2, 0, 11, 9]);
}

#[test]
fn possible_plays_exclude_own_pawns() {
    let mut board = BoardState::new();
    assert_eq!(board.add_pawn(TileCoord { x: 3, y: 3 }, PlayerSide::Bottom), Ok(()));
    assert_eq!(board.add_pawn(TileCoord { x: 4, y: 3 }, PlayerSide::Bottom), Ok(()));
    assert_eq!(board.add_pawn(TileCoord { x: 2, y: 3 }, PlayerSide::Top), Ok(()));
    // raw destinations of tile 30: [32, 28, 21, 31, 29, 38, 37];
    // 31 holds an own pawn and is excluded, 29 holds an enemy and stays
    assert_eq!(
        board.get_possible_plays(30, PlayerSide::Bottom),
        vec![32, 28, 21, 29, 38, 37]
    );
}

#[test]
fn make_move_without_capture_flips_turn_and_keeps_counts() {
    let mut board = BoardState::new();
    assert_eq!(board.add_pawn(TileCoord { x: 3, y: 0 }, PlayerSide::Top), Ok(()));
    assert_eq!(board.add_pawn(TileCoord { x: 3, y: 3 }, PlayerSide::Bottom), Ok(()));
    // the bottom pawn on tile 30 steps to the empty tile 21
    let next = board.make_move(30, 21);
    assert_eq!(next.current_player, PlayerSide::Top);
    assert_eq!(next.top_pawns.count, 1);
    assert_eq!(next.bottom_pawns.count, 1);
    assert!(next.tiles[30].is_none());
    let moved = next.tiles[21].expect("pawn arrived");
    assert_eq!(moved.player, PlayerSide::Bottom);
    assert_density_invariant(&next);
    // the starting value is untouched
    assert!(board.tiles[30].is_some());
    assert_eq!(board.current_player, PlayerSide::Bottom);
}

#[test]
fn make_move_capture_decrements_enemy_count() {
    let mut board = BoardState::new();
    assert_eq!(board.add_pawn(TileCoord { x: 3, y: 3 }, PlayerSide::Bottom), Ok(()));
    assert_eq!(board.add_pawn(TileCoord { x: 4, y: 3 }, PlayerSide::Top), Ok(()));
    let next = board.make_move(30, 31);
    assert_eq!(next.top_pawns.count, 0);
    assert_eq!(next.bottom_pawns.count, 1);
    let victor = next.tiles[31].expect("destination holds the mover");
    assert_eq!(victor.player, PlayerSide::Bottom);
    assert!(next.tiles[30].is_none());
    // the captured tile no longer appears in the top side's live entries
    for k in 0..next.top_pawns.count {
        assert_ne!(next.top_pawns.tile_indexes[k], 31);
    }
    assert_density_invariant(&next);
}

#[test]
fn capture_uses_swap_removal() {
    let mut board = BoardState::new();
    // three top pawns: slots 0, 1, 2 on tiles 3, 4, 5
    assert_eq!(board.add_pawn(TileCoord { x: 3, y: 0 }, PlayerSide::Top), Ok(()));
    assert_eq!(board.add_pawn(TileCoord { x: 4, y: 0 }, PlayerSide::Top), Ok(()));
    assert_eq!(board.add_pawn(TileCoord { x: 5, y: 0 }, PlayerSide::Top), Ok(()));
    // a bottom pawn one step away from tile 4
    assert_eq!(board.add_pawn(TileCoord { x: 4, y: 1 }, PlayerSide::Bottom), Ok(()));
    // capture the middle pawn (slot 1): the last entry must move into its slot
    let next = board.make_move(13, 4);
    assert_eq!(next.top_pawns.count, 2);
    assert_eq!(next.top_pawns.tile_indexes[0], 3);
    assert_eq!(next.top_pawns.tile_indexes[1], 5);
    let swapped = next.tiles[5].expect("remaining pawn stays on its tile");
    assert_eq!(swapped.table_index, 1);
    assert_density_invariant(&next);
}

#[test]
fn density_invariant_across_a_sequence_of_operations() {
    let mut board = BoardState::new();
    assert_eq!(board.add_pawn(TileCoord { x: 3, y: 0 }, PlayerSide::Top), Ok(()));
    assert_eq!(board.add_pawn(TileCoord { x: 4, y: 0 }, PlayerSide::Top), Ok(()));
    assert_eq!(board.add_pawn(TileCoord { x: 5, y: 0 }, PlayerSide::Top), Ok(()));
    assert_eq!(board.add_pawn(TileCoord { x: 4, y: 1 }, PlayerSide::Top), Ok(()));
    assert_eq!(board.add_pawn(TileCoord { x: 3, y: 3 }, PlayerSide::Bottom), Ok(()));
    assert_eq!(board.add_pawn(TileCoord { x: 4, y: 4 }, PlayerSide::Bottom), Ok(()));
    assert_eq!(board.add_pawn(TileCoord { x: 5, y: 3 }, PlayerSide::Bottom), Ok(()));
    assert_density_invariant(&board);

    let b1 = board.make_move(30, 21); // bottom advances
    assert_density_invariant(&b1);
    let b2 = b1.make_move(13, 22); // top advances
    assert_density_invariant(&b2);
    let b3 = b2.make_move(21, 22); // bottom captures top
    assert_density_invariant(&b3);
    assert_eq!(b3.top_pawns.count, 3);
    assert_eq!(b3.bottom_pawns.count, 3);
    let b4 = b3.make_move(4, 22); // top recaptures
    assert_density_invariant(&b4);
    assert_eq!(b4.top_pawns.count, 3);
    assert_eq!(b4.bottom_pawns.count, 2);
}
