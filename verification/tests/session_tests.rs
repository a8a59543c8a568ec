use octochess::board::BoardState;
use octochess::game::PlayerSide;
use octochess::grid::NUMBER_OF_TILES;
use octochess::grid::TileCoord;
use octochess::session::ClickOutcome;
use octochess::session::PlayerOption;
use octochess::session::computer_to_move;
use octochess::session::handle_tile_click;
use octochess::session::starting_board;
use octochess::session::winner_of;

#[test]
fn reverse_is_an_involution() {
    assert_eq!(PlayerSide::Top.reverse(), PlayerSide::Bottom);
    assert_eq!(PlayerSide::Bottom.reverse(), PlayerSide::Top);
    assert_eq!(PlayerSide::Top.reverse().reverse(), PlayerSide::Top);
    assert_eq!(PlayerSide::Bottom.reverse().reverse(), PlayerSide::Bottom);
}

#[test]
fn starting_board_layout() {
    let board = starting_board();
    assert_eq!(board.current_player, PlayerSide::Bottom);
    assert_eq!(board.top_pawns.count, 4);
    assert_eq!(board.bottom_pawns.count, 3);
    assert_eq!(&board.top_pawns.tile_indexes[..4], &[3, 4, 5, 13]);
    assert_eq!(&board.bottom_pawns.tile_indexes[..3], &[30, 38, 32]);
    let top_tiles = [3, 4, 5, 13];
    let bottom_tiles = [30, 38, 32];
    for i in 0..NUMBER_OF_TILES {
        match board.tiles[i] {
            Some(p) => {
                if top_tiles.contains(&i) {
                    assert_eq!(p.player, PlayerSide::Top);
                } else if bottom_tiles.contains(&i) {
                    assert_eq!(p.player, PlayerSide::Bottom);
                } else {
                    panic!("unexpected pawn on tile {i}");
                }
            },
            None => {
                assert!(!top_tiles.contains(&i) && !bottom_tiles.contains(&i));
            },
        }
    }
}

#[test]
fn winner_polling() {
    let mut board = BoardState::new();
    assert_eq!(winner_of(&board), Some(PlayerSide::Bottom));
    assert_eq!(board.add_pawn(TileCoord { x: 3, y: 0 }, PlayerSide::Top), Ok(()));
    // only the top side has pawns: bottom has lost
    assert_eq!(winner_of(&board), Some(PlayerSide::Top));
    assert_eq!(board.add_pawn(TileCoord { x: 3, y: 3 }, PlayerSide::Bottom), Ok(()));
    assert_eq!(winner_of(&board), None);
}

#[test]
fn winner_after_final_capture() {
    let mut board = BoardState::new();
    assert_eq!(board.add_pawn(TileCoord { x: 3, y: 3 }, PlayerSide::Bottom), Ok(()));
    assert_eq!(board.add_pawn(TileCoord { x: 4, y: 3 }, PlayerSide::Top), Ok(()));
    let next = board.make_move(30, 31);
    assert_eq!(winner_of(&next), Some(PlayerSide::Bottom));
}

#[test]
fn click_selects_own_pawn() {
    let board = starting_board();
    match handle_tile_click(&board, None, 30) {
        ClickOutcome::Selected(plays) => {
            assert_eq!(plays, board.get_possible_plays(30, PlayerSide::Bottom));
        },
        other => panic!("expected a selection, got {other:?}"),
    }
}

#[test]
fn click_on_enemy_or_empty_clears() {
    let board = starting_board();
    // tile 3 holds a Top pawn but Bottom is to move
    assert!(matches!(handle_tile_click(&board, None, 3), ClickOutcome::Cleared));
    // tile 20 is empty
    assert!(matches!(handle_tile_click(&board, None, 20), ClickOutcome::Cleared));
}

#[test]
fn click_on_destination_applies_move() {
    let board = starting_board();
    match handle_tile_click(&board, Some(30), 21) {
        ClickOutcome::Moved(next) => {
            assert_eq!(next.current_player, PlayerSide::Top);
            assert!(next.tiles[30].is_none());
            let moved = next.tiles[21].expect("pawn arrived");
            assert_eq!(moved.player, PlayerSide::Bottom);
        },
        other => panic!("expected a move, got {other:?}"),
    }
}

#[test]
fn click_elsewhere_reselects() {
    let board = starting_board();
    // tile 38 is no legal destination of the pawn on 30 (it holds an
    // own pawn), so the click selects that pawn instead
    match handle_tile_click(&board, Some(30), 38) {
        ClickOutcome::Selected(plays) => {
            assert_eq!(plays, board.get_possible_plays(38, PlayerSide::Bottom));
        },
        other => panic!("expected a reselection, got {other:?}"),
    }
    // clicking the selected tile again keeps it selected
    assert!(matches!(
        handle_tile_click(&board, Some(30), 30),
        ClickOutcome::Selected(_)
    ));
}

#[test]
fn computer_commands_top_in_one_player_games() {
    let board = starting_board();
    // Bottom is to move first: the human's turn in a one-player game
    assert!(!computer_to_move(&board, PlayerOption::OnePlayer));
    let next = board.make_move(30, 21);
    assert!(computer_to_move(&next, PlayerOption::OnePlayer));
    assert!(!computer_to_move(&next, PlayerOption::TwoPlayer));
}
