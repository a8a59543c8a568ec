use octochess::board::BoardState;
use octochess::brain::Brain;
use octochess::game::PlayerSide;
use octochess::grid::TileCoord;

#[test]
fn two_layer_moves_corner() {
    let board = BoardState::new();
    let (first, second) = Brain::get_two_layer_moves(board, 0);
    // Quad at (0, 0) reaches only tile 1; from there, six tiles, of
    // which tile 0 itself and tile 1 are excluded
    assert_eq!(first, vec![1]);
    assert_eq!(second, vec![2, 3, 9, 10, 11]);
}

#[test]
fn two_layer_moves_second_layer_sorted_and_unique() {
    let board = BoardState::new();
    for t in 0..41 {
        let (first, second) = Brain::get_two_layer_moves(board, t);
        for w in second.windows(2) {
            assert!(w[0] < w[1], "second layer must be strictly ascending");
        }
        for d in &second {
            assert!(!first.contains(d));
            assert_ne!(*d, t);
        }
    }
}

#[test]
fn two_layer_moves_ignore_occupancy() {
    let empty = BoardState::new();
    let mut crowded = BoardState::new();
    assert_eq!(crowded.add_pawn(TileCoord { x: 1, y: 0 }, PlayerSide::Top), Ok(()));
    assert_eq!(crowded.add_pawn(TileCoord { x: 3, y: 0 }, PlayerSide::Bottom), Ok(()));
    let (f1, s1) = Brain::get_two_layer_moves(empty, 0);
    let (f2, s2) = Brain::get_two_layer_moves(crowded, 0);
    assert_eq!(f1, f2);
    assert_eq!(s1, s2);
}

#[test]
fn evaluate_two_distant_pawns() {
    let mut board = BoardState::new();
    assert_eq!(board.add_pawn(TileCoord { x: 5, y: 0 }, PlayerSide::Top), Ok(()));
    assert_eq!(board.add_pawn(TileCoord { x: 3, y: 3 }, PlayerSide::Bottom), Ok(()));
    // Bottom to move: 190 * 1 - 200 * 1, no pawn within two moves
    assert_eq!(Brain::evaluate_play(board), -10);
}

#[test]
fn evaluate_win_bonus() {
    let mut board = BoardState::new();
    assert_eq!(board.add_pawn(TileCoord { x: 3, y: 3 }, PlayerSide::Bottom), Ok(()));
    // Bottom to move against an empty enemy side: material plus the
    // dominating win bonus
    assert_eq!(Brain::evaluate_play(board), 190 + 2000);
}

#[test]
fn evaluate_loss_penalty() {
    let mut board = BoardState::new();
    assert_eq!(board.add_pawn(TileCoord { x: 5, y: 0 }, PlayerSide::Top), Ok(()));
    // Bottom to move with no pawns left: enemy material, the loss
    // penalty, and the enemy-less bonus does not apply
    assert_eq!(Brain::evaluate_play(board), -200 - 2000);
}

#[test]
fn evaluate_mobility_terms() {
    let mut board = BoardState::new();
    // bottom pawn on tile 30; a supporting own pawn one move away on 21
    // and an enemy two moves away on 12
    assert_eq!(board.add_pawn(TileCoord { x: 3, y: 3 }, PlayerSide::Bottom), Ok(()));
    assert_eq!(board.add_pawn(TileCoord { x: 3, y: 2 }, PlayerSide::Bottom), Ok(()));
    assert_eq!(board.add_pawn(TileCoord { x: 3, y: 1 }, PlayerSide::Top), Ok(()));
    // material: 2 * 190 - 200
    // pawn on 30: own pawn on 21 in the first layer (+10), enemy on 12
    //   in the second layer (+30)
    // pawn on 21: enemy on 12 in the first layer (-100), own pawn on 30
    //   in the first layer (+10)
    assert_eq!(Brain::evaluate_play(board), 380 - 200 + 10 + 30 - 100 + 10);
}

#[test]
fn search_returns_none_without_pawns() {
    let board = BoardState::new();
    assert_eq!(Brain::search_best_play(&board, 10), None);
}

#[test]
fn search_takes_the_winning_capture() {
    let mut board = BoardState::new();
    assert_eq!(board.add_pawn(TileCoord { x: 3, y: 3 }, PlayerSide::Bottom), Ok(()));
    assert_eq!(board.add_pawn(TileCoord { x: 4, y: 3 }, PlayerSide::Top), Ok(()));
    // Bottom to move; capturing the last enemy pawn dominates anything else
    assert_eq!(Brain::search_best_play(&board, 1), Some((30, 31)));
}

#[test]
fn search_returns_a_legal_play() {
    let mut board = BoardState::new();
    assert_eq!(board.add_pawn(TileCoord { x: 3, y: 0 }, PlayerSide::Top), Ok(()));
    assert_eq!(board.add_pawn(TileCoord { x: 3, y: 3 }, PlayerSide::Bottom), Ok(()));
    let (source, destination) = Brain::search_best_play(&board, 2).expect("a play exists");
    let pawn = board.tiles[source].expect("the play starts on a pawn");
    assert_eq!(pawn.player, PlayerSide::Bottom);
    assert!(board.get_possible_plays(source, PlayerSide::Bottom).contains(&destination));
}
